use wcc::bytes::{char_index, slice_bytes, width};
use wcc::ordered::{is_before, keep_firsts, sort_distinct, TextMap};
use wcc::path::{extension, file_name, has_extension, normalize_path, path_parts, push_part, relative_to};
use wcc::ranges::{
    byte_column_to_byte, char_column_to_byte, contains, range_from_span, read_range_snippet,
    snippet_from_range, ByteRange, Position, SourceRange, Span,
};
use wcc::text::{
    decimal, lines_of, parse_u64, parse_usize, replace, split_at_char, trim, trim_end, trim_start, words_of,
};
use wcc::unicode::to_ascii_lowercase;

fn owned(v: &[&str]) -> Vec<String> {
    v.iter().map(|s| s.to_string()).collect()
}

#[test]
fn trims_as_std_does() {
    for s in ["  a b ", "", " \u{a0}x\u{3000}", "\t\r\n", "none", "\u{85}\u{2028}y\u{1680}"] {
        assert_eq!(trim(s), s.trim());
        assert_eq!(trim_start(s), s.trim_start());
        assert_eq!(trim_end(s), s.trim_end());
    }
}

#[test]
fn splits_as_std_does() {
    for s in ["a\nb\r\nc", "", "\n", "a\r", "a\n\n", "x\r\n\r\ny\n"] {
        assert_eq!(lines_of(s), s.lines().collect::<Vec<_>>());
        assert_eq!(words_of(s), s.split_whitespace().collect::<Vec<_>>());
        assert_eq!(split_at_char(s, '\n'), s.split('\n').collect::<Vec<_>>());
    }
    assert_eq!(words_of(" a\u{2009}b  c "), ["a", "b", "c"]);
}

#[test]
fn replaces_as_std_does() {
    for (s, from, to) in [("aXbX", "X", "yy"), ("aaa", "aa", "b"), ("abc", "", "-"), ("abc", "z", "y")] {
        assert_eq!(replace(s, from, to), s.replace(from, to));
    }
}

#[test]
fn numbers_are_read_back() {
    for n in [0u64, 7, 10, 99, 100, 1_234_567, u64::MAX] {
        assert_eq!(decimal(n), n.to_string());
        assert_eq!(parse_u64(&decimal(n)), Some(n));
    }
    for s in ["+5", "", "+", "-1", "12a", "00012", "18446744073709551616"] {
        assert_eq!(parse_u64(s), s.parse::<u64>().ok());
        assert_eq!(parse_usize(s), s.parse::<usize>().ok());
    }
}

#[test]
fn lowers_ascii_letters_only() {
    assert_eq!(to_ascii_lowercase("ÄbC.RS"), "ÄbC.RS".to_ascii_lowercase());
}

#[test]
fn names_and_extensions_of_paths() {
    for p in ["a/b.rs", "a/b", ".bashrc", "a/.git", "x.tar.gz", "a/..", "a/b/", "/", "", "a/./", "b."] {
        let std_path = std::path::Path::new(p);
        assert_eq!(file_name(p).as_deref(), std_path.file_name().and_then(|n| n.to_str()), "{p}");
        assert_eq!(extension(p).as_deref(), std_path.extension().and_then(|n| n.to_str()), "{p}");
    }
    assert!(has_extension("a/b.rs", "rs"));
    assert!(!has_extension("a/b.RS", "rs"));
}

#[test]
fn joins_and_relates_paths() {
    assert_eq!(push_part("a", "b"), "a/b");
    assert_eq!(push_part("a/", "b"), "a/b");
    assert_eq!(push_part("", "b"), "b");
    assert_eq!(push_part("a", "/b"), "/b");
    assert_eq!(relative_to("/p/src/a.rs", "/p"), "src/a.rs");
    assert_eq!(relative_to("/p/src/a.rs", "/p/"), "src/a.rs");
    assert_eq!(relative_to("/px/a.rs", "/p"), "/px/a.rs");
    assert_eq!(relative_to("/p", "/p"), "");
    assert_eq!(relative_to("./src/a.rs", "."), "src/a.rs");
    assert_eq!(relative_to("src/a.rs", "."), "src/a.rs");
    for path in ["/r//a", "/r/./a", "//r/a", "/./r/a/", "/r/a/."] {
        for root in ["/r", "/r/", "//r", "/r/."] {
            assert_eq!(relative_to(path, root), "a");
        }
    }
    assert_eq!(relative_to("/r//a//b/./c/", "/r"), "a//b/./c");
    for (path, root) in [
        ("a/b", "a"), ("a/b", "./a"), ("./a/b", "./a"), ("/a", "a"), ("/a/b", "/"), ("..", ".."), ("a/../b", "a"),
        (".", "."), ("a/", ""), ("/", ""), ("//a/.", ""), ("./", ""), ("", ""), ("", "a"), ("a", "a/b"), ("/ab", "/a"),
        (".a/b", ".a"), ("./.", "."), ("", "."),
    ] {
        let seen = std::path::Path::new(path).strip_prefix(root).map_or(path, |p| p.to_str().unwrap());
        assert_eq!(relative_to(path, root), seen, "{path:?} from {root:?}");
    }
}

#[test]
fn normalized_paths_stay_normalized() {
    for (p, n) in [("/a//b/./c", "a/b/c"), ("./x/../y", "x/../y"), ("", ""), ("/", ""), ("a/", "a")] {
        assert_eq!(normalize_path(p), n);
        assert_eq!(normalize_path(&normalize_path(p)), n);
    }
    assert_eq!(path_parts("/a/./b"), ["a", "b"]);
}

#[test]
fn orders_texts_as_std_does() {
    for a in ["", "a", "ab", "b", "é", "z", "\u{1f600}", "\u{ffff}"] {
        for b in ["", "a", "ab", "b", "é", "z", "\u{1f600}", "\u{ffff}"] {
            assert_eq!(is_before(a, b), a < b);
        }
    }
    assert_eq!(sort_distinct(&owned(&["b", "a", "b", "c", "a"])), ["a", "b", "c"]);
    assert_eq!(keep_firsts(&owned(&["b", "a", "b", "c", "a"])), ["b", "a", "c"]);
}

#[test]
fn maps_keep_their_keys_in_order() {
    let mut m: TextMap<u32> = TextMap::new();
    m.insert("b", 1);
    m.insert("a", 2);
    m.insert("b", 3);
    assert_eq!(m.len(), 2);
    assert_eq!((m.key_at(0).as_str(), *m.value_at(0)), ("a", 2));
    assert_eq!(m.get("b"), Some(&3));
    assert_eq!(m.get("c"), None);
    assert!(m.contains_key("a"));
    *m.value_mut(0) = 9;
    let mut other: TextMap<u32> = TextMap::new();
    other.insert("a", 4);
    other.insert("z", 5);
    m.absorb(other);
    assert_eq!(m.len(), 3);
    assert_eq!(m.get("a"), Some(&4));
    assert_eq!(m.pop(), Some(("z".to_string(), 5)));
}

#[test]
fn bytes_of_characters() {
    for c in ['a', '\u{7f}', '\u{80}', '\u{7ff}', '\u{800}', '\u{ffff}', '\u{10000}', '\u{10ffff}'] {
        assert_eq!(width(c), c.len_utf8());
    }
    let s = "aé€😀z";
    let cs: Vec<char> = s.chars().collect();
    for b in 0..=s.len() + 1 {
        let expected = if s.is_char_boundary(b) { Some(s[..b].chars().count()) } else { None };
        assert_eq!(char_index(&cs, b), expected);
        for e in 0..=s.len() + 1 {
            assert_eq!(slice_bytes(s, b, e).as_deref(), s.get(b..e));
        }
    }
}

#[test]
fn places_by_characters_and_by_bytes() {
    let s = "aé\nxyz\n";
    assert_eq!(char_column_to_byte(s, 1, 0), Some(0));
    assert_eq!(char_column_to_byte(s, 1, 2), Some(3));
    assert_eq!(char_column_to_byte(s, 1, 3), None);
    assert_eq!(char_column_to_byte(s, 2, 1), Some(5));
    assert_eq!(char_column_to_byte(s, 3, 0), Some(8));
    assert_eq!(char_column_to_byte(s, 4, 0), None);
    assert_eq!(char_column_to_byte(s, 0, 0), None);
    assert_eq!(byte_column_to_byte(s, 1, 1), Some(1));
    assert_eq!(byte_column_to_byte(s, 1, 2), None);
    assert_eq!(byte_column_to_byte(s, 1, 3), Some(3));
    assert_eq!(byte_column_to_byte(s, 2, 3), Some(7));
}

#[test]
fn snippets_of_ranges() {
    let s = "fn a() {\n    é\n}\nend";
    let span = Span::between(1, 0, 3, 1);
    let range = range_from_span(s, span);
    assert_eq!(range.bytes, Some(ByteRange { start: 0, end: 17 }));
    assert_eq!(snippet_from_range(s, &range), "fn a() {\n    é\n}");
    assert_eq!(read_range_snippet(s, &range).as_deref(), Some("fn a() {\n    é\n}"));
    let lines = SourceRange {
        start: Position { line: 2, column: 0 },
        end: Position { line: 9, column: 0 },
        bytes: None,
    };
    assert_eq!(snippet_from_range(s, &lines), "    é\n}\nend");
    assert_eq!(read_range_snippet(s, &lines), None);
    assert_eq!(snippet_from_range(s, &SourceRange::default()), "");
    let backwards = range_from_span(s, Span::between(3, 1, 1, 0));
    assert_eq!(backwards.bytes, None);
}

#[test]
fn ranges_contain_what_lies_before_their_end() {
    let r = SourceRange {
        start: Position { line: 2, column: 4 },
        end: Position { line: 3, column: 1 },
        bytes: None,
    };
    assert!(contains(&r, 2, 4));
    assert!(contains(&r, 3, 0));
    assert!(!contains(&r, 2, 3));
    assert!(!contains(&r, 3, 1));
    assert!(!contains(&r, 4, 0));
}
