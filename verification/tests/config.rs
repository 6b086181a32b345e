use wcc::config::{init_message, is_yes};
use wcc::{get_config_path, show_config, update_cargo_mode, UnifiedConfig};

#[test]
fn default_settings() {
    let c = UnifiedConfig::default();
    assert_eq!(c.wcc.default_cargo_mode, "debug");
    assert_eq!(c.wcc.time_format, "%H:%M:%S %d.%m.%Y");
    assert!(c.wcn.show_time_in_header && c.wcn.use_file_modification_time);
    assert!(c.wcp.auto_backup);
    assert_eq!(c.wcp.backup_suffix, ".bkp");
    assert_eq!(c.wcl.max_file_size_kb, 50);
    assert_eq!(c.wcl.max_file_words_to_copy, 10_000);
    assert_eq!(c.wcl.max_clipboard_bytes, 40 * 1024);
    assert_eq!(c.wcl.skip_patterns.len(), 32);
    assert_eq!(c.wcl.skip_patterns[31], ".bkp");
    assert_eq!(c.wcl.skip_dirs.len(), 12);
    assert_eq!(c.wcl.max_threads, 8);
    assert!(c.wcf.auto_format && c.wcf.show_buffer_preview && c.wcf.backup_before_replace);
    assert!(c.wff.show_line_numbers && c.wff.use_file_modification_time);
    assert!(c.wcg.show_line_numbers && c.wcg.show_calls && c.wcg.show_fields);
}

#[test]
fn the_settings_file() {
    assert_eq!(get_config_path(Some("/home/u/.config")), "/home/u/.config/wcc/config.toml");
    assert_eq!(get_config_path(None), "./wcc/config.toml");
}

#[test]
fn setting_the_mode_changes_the_mode_alone() {
    let mut c = UnifiedConfig::default();
    update_cargo_mode(&mut c, "release");
    assert_eq!(c.wcc.default_cargo_mode, "release");
    assert_eq!(c.wcc.time_format, UnifiedConfig::default().wcc.time_format);
    assert_eq!(c.wcl.max_file_size_kb, 50);
}

#[test]
fn settings_are_shown() {
    let mut c = UnifiedConfig::default();
    c.wcl.skip_dirs = vec!["a\"b".to_string(), "c".to_string()];
    let text = show_config(&c, "/x/config.toml");
    assert!(text.starts_with("\x1b[36m📋 Current wcc configuration:\x1b[0m\n  [wcc]\n"));
    assert!(text.contains("default_cargo_mode: \x1b[33mdebug\x1b[0m"));
    assert!(text.contains("max_file_words_to_copy: 10000"));
    assert!(text.contains("[\"a\\\"b\", \"c\"]"));
    assert!(text.contains("/x/config.toml"));
    assert!(init_message(&c, "/x/config.toml").contains("/x/config.toml"));
}

#[test]
fn answers_that_mean_yes() {
    assert!(is_yes("y\n"));
    assert!(is_yes("Y"));
    assert!(is_yes(" Y \n"));
    assert!(!is_yes("yes"));
    assert!(!is_yes("n"));
    assert!(!is_yes(""));
    assert!(!is_yes("yep"));
}
