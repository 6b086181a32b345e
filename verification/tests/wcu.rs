use wcc::common::TextStats;
use wcc::packing::decompress_b64;
use wcc::wcu::{
    choose_command, clipboard_payload, compress_if_needed, final_stats, history_files, history_path_for, key_of,
    press, settle, show_code, show_details, show_stats, shows_live_stats, stamped_path, stream_text, trim_tail,
    unpacked_or_tail, was_killed, Action, Config, HistoryEntry, Key, RetainMode, RetainPolicy, StreamTail,
};

fn owned(v: &[&str]) -> Vec<String> {
    v.iter().map(|s| s.to_string()).collect()
}

fn keep(mode: RetainMode, limit: usize) -> RetainPolicy {
    RetainPolicy { mode, limit }
}

#[test]
fn default_settings_of_the_watcher() {
    let c = Config::default_for(&Some("/h".to_string()));
    assert_eq!(c.history_dir, "/h/.local/state/wcc/history");
    assert_eq!(c.compress_above_bytes, 16 * 1024);
    assert_eq!(c.retain, keep(RetainMode::Bytes, 128 * 1024));
    assert_eq!(Config::default_for(&None).history_dir, "./.local/state/wcc/history");
}

#[test]
fn tails_of_bytes_are_what_std_reads() {
    let s = "aé€😀z\u{7ff}b";
    for limit in 0..=s.len() + 1 {
        let bytes = s.as_bytes();
        let expected = if bytes.len() <= limit {
            s.to_string()
        } else {
            String::from_utf8_lossy(&bytes[bytes.len() - limit..]).to_string()
        };
        assert_eq!(trim_tail(s, &keep(RetainMode::Bytes, limit)), expected, "{limit}");
    }
}

#[test]
fn tails_of_chars_words_and_lines() {
    assert_eq!(trim_tail("aé€", &keep(RetainMode::Chars, 2)), "é€");
    assert_eq!(trim_tail("ab", &keep(RetainMode::Chars, 2)), "ab");
    assert_eq!(trim_tail(" a  b c ", &keep(RetainMode::Words, 2)), "b c");
    assert_eq!(trim_tail(" a  b ", &keep(RetainMode::Words, 2)), " a  b ");
    assert_eq!(trim_tail("a\nb\r\nc\n", &keep(RetainMode::Lines, 2)), "b\nc\n");
    assert_eq!(trim_tail("a\nb\nc", &keep(RetainMode::Lines, 2)), "b\nc");
    assert_eq!(trim_tail("a\n", &keep(RetainMode::Lines, 0)), "\n");
}

#[test]
fn a_tail_is_no_longer_than_its_limit() {
    for limit in 1..5 {
        let s = "one two\nthree\nfour five six\nseven\n";
        assert!(trim_tail(s, &keep(RetainMode::Chars, limit)).chars().count() <= limit);
        assert!(trim_tail(s, &keep(RetainMode::Bytes, limit)).len() <= limit);
        assert!(trim_tail(s, &keep(RetainMode::Words, limit)).split_whitespace().count() <= limit);
        assert!(trim_tail(s, &keep(RetainMode::Lines, limit)).lines().count() <= limit);
    }
}

#[test]
fn streams_count_all_and_keep_the_tail() {
    let mut t = StreamTail::new();
    let policy = keep(RetainMode::Chars, 4);
    t.push("ab cd\n", &policy);
    t.push("é", &policy);
    assert_eq!(t.content, "cd\né");
    assert_eq!(t.stats, TextStats { lines: 1, words: 3, chars: 7, bytes: 8 });
}

#[test]
fn sizes_are_those_of_the_whole_stream() {
    let pieces = ["ab cd\n", "é", "", "€ x\ny\n", "z"];
    let whole: String = pieces.concat();
    for mode in [RetainMode::Bytes, RetainMode::Chars, RetainMode::Words, RetainMode::Lines] {
        let mut t = StreamTail::new();
        for piece in pieces {
            t.push(piece, &keep(mode, 1));
        }
        assert_eq!(t.stats.bytes, whole.len());
        assert_eq!(t.stats.chars, whole.chars().count());
        assert_eq!(t.stats.lines, whole.matches('\n').count());
        assert_eq!(t.stats.words, pieces.iter().map(|p| p.split_whitespace().count()).sum::<usize>());
    }
}

#[test]
fn long_streams_are_packed() {
    assert_eq!(compress_if_needed("abc", 4), Ok(None));
    let packed = compress_if_needed("abc", 3).unwrap().unwrap();
    assert_eq!(decompress_b64(&packed), Some("abc".to_string()));
    assert_eq!(stream_text(&Some(packed), "tail"), "abc");
    assert_eq!(stream_text(&Some("broken".to_string()), "tail"), "tail");
    assert_eq!(stream_text(&None, "tail"), "tail");
    assert_eq!(unpacked_or_tail(Some("x".to_string()), "t"), "x");
    assert_eq!(unpacked_or_tail(None, "t"), "t");
}

#[test]
fn entries_are_listed_newest_first() {
    assert_eq!(
        history_files(&owned(&["h/1.json", "h/3.json", "h/x.txt", "h/2.json"])),
        ["h/3.json", "h/2.json", "h/1.json"]
    );
    assert_eq!(stamped_path("h", "T", "7"), "h/T-7.json");
    let path = history_path_for("h", 1_700_000_000, "1700000000123").unwrap();
    assert_eq!(path, "h/20231114T221320Z-1700000000123.json");
    assert_eq!(history_files(&[path.clone()]), [path]);
    assert_eq!(history_path_for("h", i64::MIN, "1"), None);
}

#[test]
fn what_is_copied_and_told() {
    let cmd = owned(&["a", "b"]);
    assert_eq!(clipboard_payload(&cmd, "o", "e"), "$ a b\n\n[stdout]\no\n\n[stderr]\ne");
    let out = TextStats { lines: 1, words: 2, chars: 3, bytes: 4 };
    let err = TextStats { lines: 5, words: 6, chars: 7, bytes: 8 };
    assert_eq!(show_stats(&out), "L:1 W:2 C:3 B:4");
    assert_eq!(
        final_stats(&cmd, &out, &err, "1.2s"),
        "time=1.2s stdout L:1 W:2 C:3 B:4 stderr L:5 W:6 C:7 B:8 cmd=a b"
    );
    assert!(was_killed(true, None) && !was_killed(true, Some(0)) && !was_killed(false, None));
    assert!(shows_live_stats(false, false) && !shows_live_stats(true, false) && !shows_live_stats(false, true));
}

#[test]
fn keys_move_within_the_list() {
    assert_eq!(key_of('q'), Key::Quit);
    assert_eq!(key_of('d'), Key::Delete);
    assert_eq!(key_of('c'), Key::Copy);
    assert_eq!(key_of('x'), Key::Other);
    assert_eq!(press(0, 3, Key::Down), (1, Action::Nothing));
    assert_eq!(press(2, 3, Key::Down), (2, Action::Nothing));
    assert_eq!(press(0, 3, Key::Up), (0, Action::Nothing));
    assert_eq!(press(2, 3, Key::Up), (1, Action::Nothing));
    assert_eq!(press(1, 3, Key::Delete), (1, Action::Delete(1)));
    assert_eq!(press(1, 3, Key::Copy), (1, Action::Copy(1)));
    assert_eq!(press(0, 0, Key::Delete), (0, Action::Nothing));
    assert_eq!(press(1, 3, Key::Quit), (1, Action::Quit));
    assert_eq!(press(1, 3, Key::Other), (1, Action::Nothing));
    assert_eq!(settle(2, 2), 1);
    assert_eq!(settle(0, 0), 0);
    assert_eq!(settle(1, 5), 1);
}

#[test]
fn details_of_an_entry() {
    for code in [None, Some(0), Some(-1), Some(i32::MIN)] {
        assert_eq!(show_code(code), format!("{code:?}"));
    }
    let entry = HistoryEntry {
        command: owned(&["a"]),
        exit_code: Some(2),
        killed: false,
        stdout_stats: TextStats { lines: 1, words: 2, chars: 3, bytes: 4 },
        stderr_stats: TextStats { lines: 5, words: 6, chars: 7, bytes: 8 },
        stdout_tail: "o".to_string(),
        stderr_tail: "e".to_string(),
    };
    assert_eq!(
        show_details(&[entry], 0),
        "command: a\nexit: Some(2) killed: false\nstdout lines:1 words:2 chars:3 bytes:4\nstderr lines:5 words:6 chars:7 bytes:8\n\nstdout tail:\no\n\nstderr tail:\ne"
    );
    assert_eq!(show_details(&[], 0), "no history");
}

#[test]
fn the_command_of_the_mode_comes_first() {
    assert_eq!(choose_command(owned(&["a"]), owned(&["b"])), Some(owned(&["a"])));
    assert_eq!(choose_command(vec![], owned(&["b"])), Some(owned(&["b"])));
    assert_eq!(choose_command(vec![], vec![]), None);
}
