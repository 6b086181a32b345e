use wcc::wcc::{
    cargo_args, cargo_command, checked_mode, chosen_command, clean_payload, clipboard_payload,
    history_candidates, history_kind, is_release, is_shell_builtin_or_alias, merge_history, mode_or_error,
    history_line, plan, read_commands, receive, show_settings, strip_ansi_codes, watch_step, HistoryFile, HistoryKind, Msg,
    Plan, Step, StreamTail,
};
use wcc::UnifiedConfig;

fn owned(v: &[&str]) -> Vec<String> {
    v.iter().map(|s| s.to_string()).collect()
}

#[test]
fn streams_keep_what_each_pipe_wrote() {
    let mut out = StreamTail::new();
    let mut err = StreamTail::new();
    for m in [
        Msg::Stdout("a\n".to_string()),
        Msg::Stderr("x\n".to_string()),
        Msg::Stdout("b".to_string()),
    ] {
        receive(&mut out, &mut err, &m);
    }
    assert_eq!(out.content, "a\nb");
    assert_eq!(err.content, "x\n");
    out.push("c");
    assert_eq!(out.content, "a\nbc");
}

#[test]
fn codes_are_stripped() {
    assert_eq!(strip_ansi_codes("\x1b[1;31mred\x1b[0m \x1b[Kx\x1b[2J"), "red x\x1b[2J");
    assert_eq!(strip_ansi_codes("plain"), "plain");
}

#[test]
fn the_clipboard_holds_command_time_and_streams() {
    let cmd = owned(&["ls", "-l"]);
    assert_eq!(
        clipboard_payload(&cmd, "10:00:00 01.01.2024", "o\n", "e\n"),
        "$ ls -l # 10:00:00 01.01.2024\n\n[stdout]\no\n\n\n[stderr]\ne\n"
    );
    assert_eq!(
        clean_payload(&cmd, "t", "\x1b[32mo\x1b[0m", "e"),
        "$ ls -l # t\n\n[stdout]\no\n\n[stderr]\ne"
    );
}

#[test]
fn cargo_modes() {
    assert!(is_release(true, true, "debug"));
    assert!(!is_release(false, true, "release"));
    assert!(is_release(false, false, "release"));
    assert!(!is_release(false, false, "debug"));
    assert_eq!(cargo_args("build", true, &owned(&["-v"])), ["build", "--release", "-v"]);
    assert_eq!(cargo_args("run", false, &[]), ["run"]);
    assert_eq!(cargo_command(&owned(&["run", "-q"])), "cargo run -q");
    assert_eq!(checked_mode("Release"), Ok("release".to_string()));
    assert_eq!(checked_mode("DEBUG"), Ok("debug".to_string()));
    let refused = "\x1b[31mError: Invalid mode 'Fast'. Use 'debug' or 'release'.\x1b[0m".to_string();
    assert_eq!(checked_mode("Fast"), Err(refused.clone()));
    assert_eq!(mode_or_error("Fast", "fast"), Err(refused));
    assert_eq!(mode_or_error("X", "debug"), Ok("debug".to_string()));
}

#[test]
fn shell_words_go_to_the_shell() {
    for s in ["a && b", "a || b", "a | b", "a > f", "a < f", "a; b", "a &", "echo $X", "`a`", "(a)"] {
        assert!(is_shell_builtin_or_alias(s), "{s}");
    }
    assert!(!is_shell_builtin_or_alias("cargo test -- --nocapture"));
    assert_eq!(plan(&[]), Plan::Ask);
    assert_eq!(plan(&owned(&["a", "|", "b"])), Plan::Shell("a | b".to_string()));
    assert_eq!(plan(&owned(&["make"])), Plan::Watch);
}

#[test]
fn watching_ends_with_a_signal_or_the_child() {
    assert_eq!(watch_step(true, true), Step::Kill);
    assert_eq!(watch_step(true, false), Step::Kill);
    assert_eq!(watch_step(false, true), Step::Finish);
    assert_eq!(watch_step(false, false), Step::Wait);
}

#[test]
fn shell_histories_are_read() {
    assert_eq!(history_kind("/h/.zsh_history"), HistoryKind::Zsh);
    assert_eq!(history_kind("/h/.local/share/fish/fish_history"), HistoryKind::Fish);
    assert_eq!(history_kind("/h/.bash_history"), HistoryKind::Plain);
    assert_eq!(read_commands(HistoryKind::Zsh, ": 1:0;ls ; x\nnone\n: 2:0;  \n"), ["ls ; x"]);
    assert_eq!(read_commands(HistoryKind::Fish, "- cmd: ls\n  when: 1\n- cmd:   \n"), ["ls"]);
    assert_eq!(read_commands(HistoryKind::Plain, " a \n\nb\n"), ["a", "b"]);
    assert_eq!(history_line("ls -l; x", 1700000000), ": 1700000000:0;ls -l; x");
    let own = format!("{}\nplain ; b\n: x:0;c\n: 1:0;\n: 12:1;d\n", history_line("ls -l; x", 7));
    assert_eq!(read_commands(HistoryKind::Own, &own), ["ls -l; x", "plain ; b", ": x:0;c", ": 12:1;d"]);
    assert_eq!(
        history_candidates("/h"),
        ["/h/.zsh_history", "/h/.bash_history", "/h/.local/share/fish/fish_history"]
    );
}

#[test]
fn merged_history_names_each_command_once() {
    let files = vec![
        HistoryFile { path: "/h/.zsh_history".to_string(), content: ": 1:0;a\n: 2:0;b\n".to_string() },
        HistoryFile { path: "/h/.bash_history".to_string(), content: "c\nb\n".to_string() },
    ];
    assert_eq!(merge_history("x\na\nx\n", &files), ["x", "a", "b", "c"]);
}

#[test]
fn the_command_chosen_is_the_last_line() {
    assert_eq!(chosen_command(Some(0), "query\n make \n"), Some("make".to_string()));
    assert_eq!(chosen_command(Some(1), "typed\n"), Some("typed".to_string()));
    assert_eq!(chosen_command(Some(130), "typed\n"), None);
    assert_eq!(chosen_command(None, "  \n"), None);
    assert_eq!(chosen_command(Some(0), ""), None);
}

#[test]
fn settings_in_short() {
    assert_eq!(
        show_settings(&UnifiedConfig::default()),
        "\x1b[36m📋 Current wcc configuration:\x1b[0m\n  [wcc]\n    default_cargo_mode: \x1b[33mdebug\x1b[0m\n  [wcn]\n    show_time_in_header: true\n  [wcp]\n    auto_backup: true\n  [wcl]\n    max_file_words_to_copy: 10000\n  [wcf]\n    auto_format: true\n\n  Config file: \x1b[90m~/.config/wcc/config.toml\x1b[0m\n"
    );
}
