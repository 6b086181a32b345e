use wcc::wff::{
    block_summary, build_preview_lines, chosen_block, extract_function_block, extract_impl_block,
    extract_struct_block, find_blocks, find_blocks_in_file, target_arg, uses_file_time, wants_line_numbers,
    wants_telescope, CodeBlockInfo, CodeBlockType,
};
use wcc::UnifiedConfig;

const SOURCE: &str = "// fn not_here() {}\n#[derive(Debug)]\npub struct A {\n    x: u8,\n}\n\nimpl A {\n    pub fn get(&self) -> u8 {\n        self.x\n    }\n    // fn gone() {}\n    async fn wait(&self) {\n    }\n}\n\npub async fn free() {\n    { }\n}\n";

fn owned(v: &[&str]) -> Vec<String> {
    v.iter().map(|s| s.to_string()).collect()
}

fn blocks() -> Vec<CodeBlockInfo> {
    find_blocks_in_file("/p/src/a.rs", "src/a.rs", SOURCE)
}

#[test]
fn finds_structs_impls_and_functions() {
    let found: Vec<_> = blocks()
        .iter()
        .map(|b| {
            assert_eq!(b.file_lines, 18);
            assert_eq!((b.file_path.as_str(), b.relative_path.as_str()), ("/p/src/a.rs", "src/a.rs"));
            (b.block.name.clone(), b.block.block_type, b.block.start_line, b.block.end_line)
        })
        .collect();
    assert_eq!(
        found,
        vec![
            ("A".to_string(), CodeBlockType::Struct, 2, 5),
            ("A".to_string(), CodeBlockType::Impl, 7, 14),
            ("get".to_string(), CodeBlockType::Function, 8, 10),
            ("wait".to_string(), CodeBlockType::Function, 12, 13),
            ("free".to_string(), CodeBlockType::Function, 16, 18),
        ]
    );
}

#[test]
fn blocks_lie_within_their_file_and_methods_within_their_impl() {
    let all = blocks();
    for b in &all {
        assert!(1 <= b.block.start_line && b.block.start_line <= b.block.end_line);
        assert!(b.block.end_line <= b.file_lines);
    }
    assert!(all[1].block.start_line < all[2].block.start_line);
    assert!(all[3].block.end_line <= all[1].block.end_line);
}

#[test]
fn heads_of_blocks() {
    let ls = owned(&["#[x]", "pub struct B<T> {", "}", "impl<T> C {", "impl D for E {", "}", "let f = x;"]);
    let b = extract_struct_block(&ls, 0).unwrap();
    assert_eq!((b.name.as_str(), b.is_pub, b.start_line, b.end_line), ("B", true, 1, 3));
    assert_eq!(b.body, "#[x]\npub struct B<T> {\n}");
    assert!(extract_struct_block(&ls, 3).is_none());
    assert!(extract_struct_block(&ls, 90).is_none());
    assert!(extract_impl_block(&ls, 3).is_none());
    let d = extract_impl_block(&ls, 4).unwrap();
    assert_eq!((d.name.as_str(), d.end_line), ("D", 6));
    assert!(extract_function_block(&ls, 6).is_none());
    let unit = extract_struct_block(&owned(&["struct U;", "x"]), 0).unwrap();
    assert_eq!((unit.name.as_str(), unit.end_line), ("U", 1));
    let odd = extract_function_block(&owned(&["pub(crate) unsafe fn g() {", "}"]), 0).unwrap();
    assert_eq!((odd.name.as_str(), odd.is_pub, odd.is_async), ("g", true, false));
    assert!(extract_function_block(&owned(&["fn h();"]), 0).is_none());
}

#[test]
fn a_comment_is_passed_over() {
    assert!(find_blocks(&owned(&["// struct A {}", "   // fn b() {}"])).is_empty());
}

#[test]
fn lines_told_of_blocks() {
    let all = blocks();
    assert_eq!(all[0].block.get_modifier_string(), "pub struct ");
    assert_eq!(all[1].block.get_modifier_string(), "impl ");
    assert_eq!(all[2].block.get_modifier_string(), "pub ");
    assert_eq!(all[3].block.get_modifier_string(), "async ");
    assert_eq!(all[4].block.get_modifier_string(), "pub async ");
    assert_eq!(all[4].get_telescope_entry(), "ƒ│free│src/a.rs│16│18");
    assert_eq!(all[4].get_display_string(), "ƒ pub async  free (src/a.rs: lines 16-18)");
    assert_eq!(
        all[0].to_json(),
        "{\"type\":\"Struct\",\"name\":\"A\",\"path\":\"src/a.rs\",\"line\":2,\"end_line\":5}"
    );
    assert_eq!(build_preview_lines(&all)[1], "  2 │ ℑ A │ src/a.rs │ 7-14");
    assert!(block_summary(&all).starts_with(
        "✓ Found 5 code block(s)\n  • Ⓢ pub struct  A (src/a.rs: lines 2-5)\n"
    ));
    let mut many = Vec::new();
    for _ in 0..3 {
        many.extend(blocks());
    }
    assert!(block_summary(&many).ends_with("  ... and 5 more\n"));
    assert_eq!(
        all[4].print_stats("16.7"),
        "\n\x1b[36mfile\x1b[0m src/a.rs  \x1b[36mfunction\x1b[0m pub async free\n  \x1b[33mlines\x1b[0m 2 (16.7% of file)  \x1b[33mwords\x1b[0m 8  \x1b[33mchars\x1b[0m 31  \x1b[33mbytes\x1b[0m 31\n  \x1b[33mline range\x1b[0m 16-18\n"
    );
}

#[test]
fn payloads_with_and_without_line_numbers() {
    let config = UnifiedConfig::default();
    let all = blocks();
    assert_eq!(
        all[2].to_clipboard_payload(&config, true, "T"),
        "// src/a.rs # get # T\n 8      pub fn get(&self) -> u8 {\n 9          self.x\n10      }"
    );
    let mut quiet = UnifiedConfig::default();
    quiet.wff.show_time_in_header = false;
    assert_eq!(
        all[2].to_clipboard_payload(&quiet, false, "T"),
        "// src/a.rs # get # lines 8-10\n    pub fn get(&self) -> u8 {\n        self.x\n    }"
    );
    assert_eq!(all[0].format_header(&config, false, "T"), "// src/a.rs # A # lines 2-5 # T\n");
    for end in [9, 10, 99, 100, 1000, 12345] {
        let mut b = blocks().remove(4);
        b.block.end_line = end;
        let width = (end as f64).log10().floor() as usize + 1;
        let first = b.block.add_line_numbers_to_body().lines().next().unwrap().to_string();
        assert_eq!(first, format!("{:>width$}  pub async fn free() {{", 16, width = width));
    }
}

#[test]
fn time_of_the_file_or_now() {
    let mut config = UnifiedConfig::default();
    assert!(uses_file_time(&config, true) && !uses_file_time(&config, false));
    config.wcn.use_file_modification_time = false;
    assert!(!uses_file_time(&config, true));
}

#[test]
fn the_block_chosen() {
    assert_eq!(chosen_block("  2 │ ƒ x │ a.rs │ 1-2\n", 3), Some(1));
    assert_eq!(chosen_block("4 │ x", 3), None);
    assert_eq!(chosen_block("0 │ x", 3), None);
    assert_eq!(chosen_block("x", 3), None);
    assert_eq!(chosen_block("", 3), None);
}

#[test]
fn arguments_of_the_finder() {
    let config = UnifiedConfig::default();
    assert!(wants_line_numbers(&config, &owned(&["wff"])));
    assert!(wants_line_numbers(&config, &[]));
    assert!(wants_line_numbers(&config, &owned(&["-n"])));
    assert!(!wants_line_numbers(&config, &owned(&["wff", "-n"])));
    assert!(wants_telescope(&owned(&["wff", "-t"])) && !wants_telescope(&owned(&["wff", "x"])));
    assert_eq!(target_arg(&owned(&["wff", "-n", "src"])), Some(2));
    assert_eq!(target_arg(&owned(&["wff", "src", "-n"])), None);
    assert_eq!(target_arg(&owned(&["wff", "-x"])), None);
    assert_eq!(target_arg(&owned(&["wff"])), None);
}
