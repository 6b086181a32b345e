//! The configuration of the tools.

use vstd::prelude::*;
use crate::path::{push_part, pushed};
use crate::text::{dec, decimal, same, texts, trim, trimmed};
use crate::unicode::{lowercase, to_lowercase};

verus! {

/// The configuration of all tools.
#[derive(Clone, Debug, PartialEq, Eq)]
pub struct UnifiedConfig {
    pub wcc: WccConfig,
    pub wcn: WcnConfig,
    pub wcp: WcpConfig,
    pub wcl: WclConfig,
    pub wcf: WcfConfig,
    pub wff: WffConfig,
    pub wcg: WcgConfig,
    pub wrs: WrsConfig,
    pub wcz: WczConfig,
}

/// The command runner.
#[derive(Clone, Debug, PartialEq, Eq)]
pub struct WccConfig {
    pub default_cargo_mode: String,
    pub time_format: String,
}

/// Copying files.
#[derive(Clone, Copy, Debug, PartialEq, Eq, Structural)]
pub struct WcnConfig {
    pub show_time_in_header: bool,
    pub use_file_modification_time: bool,
}

/// Pasting into files; `backup_suffix` ends the names of backups.
#[derive(Clone, Debug, PartialEq, Eq)]
pub struct WcpConfig {
    pub auto_backup: bool,
    pub backup_suffix: String,
}

/// Analysing directories.
#[derive(Clone, Debug, PartialEq, Eq)]
pub struct WclConfig {
    pub max_file_size_kb: usize,
    pub max_file_words_to_copy: usize,
    pub max_clipboard_bytes: usize,
    pub skip_patterns: Vec<String>,
    pub skip_dirs: Vec<String>,
    pub show_empty_files: bool,
    pub show_stats_per_file: bool,
    pub show_function_details: bool,
    pub show_class_details: bool,
    pub show_usage_stats: bool,
    pub max_files_to_display: usize,
    pub min_function_lines: usize,
    pub min_class_lines: usize,
    pub max_functions_per_file: usize,
    pub max_classes_per_file: usize,
    pub parallel_processing: bool,
    pub max_threads: usize,
    pub copy_file_contents: bool,
}

/// Replacing code blocks.
#[derive(Clone, Copy, Debug, PartialEq, Eq, Structural)]
pub struct WcfConfig {
    pub auto_format: bool,
    pub show_buffer_preview: bool,
    pub backup_before_replace: bool,
}

/// Finding code blocks.
#[derive(Clone, Debug, PartialEq, Eq)]
pub struct WffConfig {
    pub show_line_numbers: bool,
    pub show_time_in_header: bool,
    pub use_file_modification_time: bool,
    pub time_format: String,
}

/// Code graphs.
#[derive(Clone, Copy, Debug, PartialEq, Eq, Structural)]
pub struct WcgConfig {
    pub show_line_numbers: bool,
    pub show_calls: bool,
    pub show_fields: bool,
    pub show_imports: bool,
    pub include_field_nodes: bool,
    pub show_impl_edges: bool,
}

/// Replacing strings in source files.
#[derive(Clone, Debug, PartialEq, Eq)]
pub struct WrsConfig {
    pub enabled: bool,
    pub auto_backup: bool,
    pub dry_run_by_default: bool,
    pub case_sensitive: bool,
    pub show_line_details: bool,
    pub follow_symlinks: bool,
    pub preserve_timestamps: bool,
    pub max_file_size_mb: u64,
    pub exclude_dirs: Vec<String>,
    pub exclude_patterns: Vec<String>,
    pub source_extensions: Vec<String>,
}

/// Archives.
#[derive(Clone, Debug, PartialEq, Eq)]
pub struct WczConfig {
    pub ignore: Vec<String>,
    pub ignore_regexes: Vec<String>,
    pub default_folder: Option<String>,
}

/// The texts of a list of string slices.
pub open spec fn slices(v: Seq<&str>) -> Seq<Seq<char>> {
    v.map_values(|s: &str| s@)
}

/// A list of strings with these texts.
pub(crate) fn owned(list: &[&str]) -> (r: Vec<String>)
    ensures
        texts(r@) == slices(list@),
{
    let mut out: Vec<String> = Vec::new();
    let mut i: usize = 0;
    while i < list.len()
        invariant
            i <= list@.len(),
            texts(out@) == slices(list@).take(i as int),
        decreases list@.len() - i,
    {
        out.push(list[i].to_owned());
        assert(texts(out@) =~= slices(list@).take(i + 1));
        i += 1;
    }
    out
}

/// How times are written unless the configuration says otherwise.
pub open spec fn default_time_format() -> Seq<char> {
    "%H:%M:%S %d.%m.%Y"@
}

/// Endings of the files that the analyser passes over.
pub open spec fn default_skip_patterns() -> Seq<Seq<char>> {
    seq![
        ".o"@, ".pyc"@, ".pyo"@, ".so"@, ".dll"@, ".dylib"@, ".exe"@, ".class"@, ".jar"@, ".war"@,
        ".ear"@, ".zip"@, ".tar"@, ".gz"@, ".bz2"@, ".xz"@, ".7z"@, ".rar"@, ".png"@, ".jpg"@,
        ".jpeg"@, ".gif"@, ".bmp"@, ".ico"@, ".mp3"@, ".mp4"@, ".avi"@, ".mov"@, ".pdf"@, ".doc"@,
        ".docx"@, ".bkp"@,
    ]
}

/// Names of the directories that the analyser passes over.
pub open spec fn default_skip_dirs() -> Seq<Seq<char>> {
    seq![
        "target"@, "node_modules"@, ".git"@, ".svn"@, ".hg"@, "build"@, "dist"@, "__pycache__"@,
        ".cache"@, ".cargo"@, ".idea"@, ".vscode"@,
    ]
}

/// Names of the directories that string replacement passes over.
pub open spec fn default_exclude_dirs() -> Seq<Seq<char>> {
    seq![
        "target"@, "node_modules"@, ".git"@, ".svn"@, ".hg"@, "build"@, "dist"@, "__pycache__"@,
        ".cache"@, ".cargo"@, ".idea"@, ".vscode"@,
    ]
}

/// Parts of paths that string replacement passes over.
pub open spec fn default_exclude_patterns() -> Seq<Seq<char>> {
    seq![
        ".bkp"@, ".lock"@, ".min.js"@,
    ]
}

/// Extensions, and names, of the files in which strings are replaced.
pub open spec fn default_source_extensions() -> Seq<Seq<char>> {
    seq![
        "rs"@, "go"@, "py"@, "js"@, "jsx"@, "ts"@, "tsx"@, "c"@, "cc"@, "cpp"@, "cxx"@, "h"@,
        "hpp"@, "java"@, "kt"@, "swift"@, "scala"@, "cs"@, "rb"@, "php"@, "sh"@, "bash"@, "zsh"@,
        "fish"@, "lua"@, "toml"@, "yaml"@, "yml"@, "json"@, "md"@, "txt"@, "html"@, "css"@, "sql"@,
        "nix"@, "dockerfile"@, "makefile"@,
    ]
}

/// The settings of a file that does not speak of the runner: none.
impl Default for WccConfig {
    fn default() -> (r: WccConfig)
        ensures
            r.default_cargo_mode@ == Seq::<char>::empty(),
            r.time_format@ == Seq::<char>::empty(),
    {
        WccConfig { default_cargo_mode: String::new(), time_format: String::new() }
    }
}

impl Default for WcnConfig {
    fn default() -> (r: WcnConfig)
        ensures
            r == (WcnConfig { show_time_in_header: false, use_file_modification_time: false }),
    {
        WcnConfig { show_time_in_header: false, use_file_modification_time: false }
    }
}

impl Default for WcpConfig {
    fn default() -> (r: WcpConfig)
        ensures
            !r.auto_backup,
            r.backup_suffix@ == ".bkp"@,
    {
        WcpConfig { auto_backup: false, backup_suffix: ".bkp".to_owned() }
    }
}

impl Default for WcfConfig {
    fn default() -> (r: WcfConfig)
        ensures
            r == (WcfConfig {
                auto_format: false,
                show_buffer_preview: false,
                backup_before_replace: true,
            }),
    {
        WcfConfig { auto_format: false, show_buffer_preview: false, backup_before_replace: true }
    }
}

impl Default for WclConfig {
    fn default() -> (r: WclConfig)
        ensures
            r.max_file_size_kb == 0,
            r.max_file_words_to_copy == 0,
            r.max_clipboard_bytes == 0,
            r.skip_patterns@.len() == 0,
            r.skip_dirs@.len() == 0,
            !r.show_empty_files,
            !r.show_stats_per_file,
            !r.show_function_details,
            !r.show_class_details,
            !r.show_usage_stats,
            r.max_files_to_display == 0,
            r.min_function_lines == 0,
            r.min_class_lines == 0,
            r.max_functions_per_file == 0,
            r.max_classes_per_file == 0,
            !r.parallel_processing,
            r.max_threads == 0,
            !r.copy_file_contents,
    {
        WclConfig {
            max_file_size_kb: 0,
            max_file_words_to_copy: 0,
            max_clipboard_bytes: 0,
            skip_patterns: Vec::new(),
            skip_dirs: Vec::new(),
            show_empty_files: false,
            show_stats_per_file: false,
            show_function_details: false,
            show_class_details: false,
            show_usage_stats: false,
            max_files_to_display: 0,
            min_function_lines: 0,
            min_class_lines: 0,
            max_functions_per_file: 0,
            max_classes_per_file: 0,
            parallel_processing: false,
            max_threads: 0,
            copy_file_contents: false,
        }
    }
}

impl Default for WffConfig {
    fn default() -> (r: WffConfig)
        ensures
            r.show_line_numbers,
            r.show_time_in_header,
            r.use_file_modification_time,
            r.time_format@ == default_time_format(),
    {
        WffConfig {
            show_line_numbers: true,
            show_time_in_header: true,
            use_file_modification_time: true,
            time_format: "%H:%M:%S %d.%m.%Y".to_owned(),
        }
    }
}

impl Default for WcgConfig {
    fn default() -> (r: WcgConfig)
        ensures
            r == (WcgConfig {
                show_line_numbers: true,
                show_calls: true,
                show_fields: true,
                show_imports: true,
                include_field_nodes: true,
                show_impl_edges: true,
            }),
    {
        WcgConfig {
            show_line_numbers: true,
            show_calls: true,
            show_fields: true,
            show_imports: true,
            include_field_nodes: true,
            show_impl_edges: true,
        }
    }
}

impl Default for WrsConfig {
    fn default() -> (r: WrsConfig)
        ensures
            r.enabled,
            r.auto_backup,
            !r.dry_run_by_default,
            r.case_sensitive,
            r.show_line_details,
            !r.follow_symlinks,
            r.preserve_timestamps,
            r.max_file_size_mb == 10,
            texts(r.exclude_dirs@) == default_exclude_dirs(),
            texts(r.exclude_patterns@) == default_exclude_patterns(),
            texts(r.source_extensions@) == default_source_extensions(),
    {
        let exclude_dirs: Vec<String> = owned(&[
        "target", "node_modules", ".git", ".svn", ".hg", "build", "dist", "__pycache__", ".cache",
        ".cargo", ".idea", ".vscode",
    ]);
        assert(texts(exclude_dirs@) =~= default_exclude_dirs());
        let exclude_patterns: Vec<String> = owned(&[
        ".bkp", ".lock", ".min.js",
    ]);
        assert(texts(exclude_patterns@) =~= default_exclude_patterns());
        let source_extensions: Vec<String> = owned(&[
        "rs", "go", "py", "js", "jsx", "ts", "tsx", "c", "cc", "cpp", "cxx", "h", "hpp", "java",
        "kt", "swift", "scala", "cs", "rb", "php", "sh", "bash", "zsh", "fish", "lua", "toml",
        "yaml", "yml", "json", "md", "txt", "html", "css", "sql", "nix", "dockerfile", "makefile",
    ]);
        assert(texts(source_extensions@) =~= default_source_extensions());
        WrsConfig {
            enabled: true,
            auto_backup: true,
            dry_run_by_default: false,
            case_sensitive: true,
            show_line_details: true,
            follow_symlinks: false,
            preserve_timestamps: true,
            max_file_size_mb: 10,
            exclude_dirs,
            exclude_patterns,
            source_extensions,
        }
    }
}

impl Default for WczConfig {
    fn default() -> (r: WczConfig)
        ensures
            r.ignore@.len() == 0,
            r.ignore_regexes@.len() == 0,
            r.default_folder is None,
    {
        WczConfig { ignore: Vec::new(), ignore_regexes: Vec::new(), default_folder: None }
    }
}

/// What the analyser is told unless the configuration says otherwise.
pub open spec fn is_default_wcl(c: WclConfig) -> bool {
    &&& c.max_file_size_kb == 50
    &&& c.max_file_words_to_copy == 10_000
    &&& c.max_clipboard_bytes == 40_960
    &&& texts(c.skip_patterns@) == default_skip_patterns()
    &&& texts(c.skip_dirs@) == default_skip_dirs()
    &&& !c.show_empty_files
    &&& c.show_stats_per_file
    &&& c.show_function_details
    &&& c.show_class_details
    &&& !c.show_usage_stats
    &&& c.max_files_to_display == 500
    &&& c.min_function_lines == 1
    &&& c.min_class_lines == 1
    &&& c.max_functions_per_file == 100
    &&& c.max_classes_per_file == 50
    &&& c.parallel_processing
    &&& c.max_threads == 8
    &&& c.copy_file_contents
}

fn default_wcl() -> (r: WclConfig)
    ensures
        is_default_wcl(r),
{
    let skip_patterns: Vec<String> = owned(&[
        ".o", ".pyc", ".pyo", ".so", ".dll", ".dylib", ".exe", ".class", ".jar", ".war", ".ear",
        ".zip", ".tar", ".gz", ".bz2", ".xz", ".7z", ".rar", ".png", ".jpg", ".jpeg", ".gif",
        ".bmp", ".ico", ".mp3", ".mp4", ".avi", ".mov", ".pdf", ".doc", ".docx", ".bkp",
    ]);
    assert(texts(skip_patterns@) =~= default_skip_patterns());
    let skip_dirs: Vec<String> = owned(&[
        "target", "node_modules", ".git", ".svn", ".hg", "build", "dist", "__pycache__", ".cache",
        ".cargo", ".idea", ".vscode",
    ]);
    assert(texts(skip_dirs@) =~= default_skip_dirs());
    WclConfig {
        max_file_size_kb: 50,
        max_file_words_to_copy: 10_000,
        max_clipboard_bytes: 40 * 1024,
        skip_patterns,
        skip_dirs,
        show_empty_files: false,
        show_stats_per_file: true,
        show_function_details: true,
        show_class_details: true,
        show_usage_stats: false,
        max_files_to_display: 500,
        min_function_lines: 1,
        min_class_lines: 1,
        max_functions_per_file: 100,
        max_classes_per_file: 50,
        parallel_processing: true,
        max_threads: 8,
        copy_file_contents: true,
    }
}

impl Default for UnifiedConfig {
    fn default() -> (r: UnifiedConfig)
        ensures
            r.wcc.default_cargo_mode@ == "debug"@,
            r.wcc.time_format@ == default_time_format(),
            r.wcn == (WcnConfig { show_time_in_header: true, use_file_modification_time: true }),
            r.wcp.auto_backup,
            r.wcp.backup_suffix@ == ".bkp"@,
            is_default_wcl(r.wcl),
            r.wcf == (WcfConfig {
                auto_format: true,
                show_buffer_preview: true,
                backup_before_replace: true,
            }),
            r.wff.show_line_numbers,
            r.wff.show_time_in_header,
            r.wff.use_file_modification_time,
            r.wff.time_format@ == default_time_format(),
            r.wcg == (WcgConfig {
                show_line_numbers: true,
                show_calls: true,
                show_fields: true,
                show_imports: true,
                include_field_nodes: true,
                show_impl_edges: true,
            }),
            r.wrs.enabled,
            r.wrs.auto_backup,
            !r.wrs.dry_run_by_default,
            r.wrs.case_sensitive,
            r.wrs.show_line_details,
            !r.wrs.follow_symlinks,
            r.wrs.preserve_timestamps,
            r.wrs.max_file_size_mb == 10,
            texts(r.wrs.exclude_dirs@) == default_exclude_dirs(),
            texts(r.wrs.exclude_patterns@) == default_exclude_patterns(),
            texts(r.wrs.source_extensions@) == default_source_extensions(),
            r.wcz.ignore@.len() == 0,
            r.wcz.ignore_regexes@.len() == 0,
            r.wcz.default_folder is None,
    {
        UnifiedConfig {
            wcc: WccConfig {
                default_cargo_mode: "debug".to_owned(),
                time_format: "%H:%M:%S %d.%m.%Y".to_owned(),
            },
            wcn: WcnConfig { show_time_in_header: true, use_file_modification_time: true },
            wcp: WcpConfig { auto_backup: true, backup_suffix: ".bkp".to_owned() },
            wcl: default_wcl(),
            wcf: WcfConfig {
                auto_format: true,
                show_buffer_preview: true,
                backup_before_replace: true,
            },
            wff: WffConfig::default(),
            wcg: WcgConfig::default(),
            wrs: WrsConfig::default(),
            wcz: WczConfig::default(),
        }
    }
}

/// Where the configuration lies, in the user's configuration directory or, where there is none,
/// in the current one.
pub open spec fn config_path(dir: Option<Seq<char>>) -> Seq<char> {
    pushed(
        match dir {
            Some(d) => d,
            None => "."@,
        },
        "wcc/config.toml"@,
    )
}

/// Where the configuration lies.
pub fn get_config_path(config_dir: Option<&str>) -> (r: String)
    ensures
        r@ == config_path(
            match config_dir {
                Some(d) => Some(d@),
                None => None,
            },
        ),
{
    match config_dir {
        Some(d) => push_part(d, "wcc/config.toml"),
        None => push_part(".", "wcc/config.toml"),
    }
}

/// Sets the default build mode and nothing else.
pub fn update_cargo_mode(config: &mut UnifiedConfig, mode: &str)
    ensures
        final(config).wcc.default_cargo_mode@ == mode@,
        final(config).wcc.time_format == old(config).wcc.time_format,
        final(config).wcn == old(config).wcn,
        final(config).wcp == old(config).wcp,
        final(config).wcl == old(config).wcl,
        final(config).wcf == old(config).wcf,
        final(config).wff == old(config).wff,
        final(config).wcg == old(config).wcg,
        final(config).wrs == old(config).wrs,
        final(config).wcz == old(config).wcz,
{
    config.wcc.default_cargo_mode = mode.to_owned();
}

/// How `{:?}` writes a list of strings.
pub uninterp spec fn debug_list(v: Seq<Seq<char>>) -> Seq<char>;

/// `format!` with `{:?}` on a list of strings: the same text for the same strings every time.
#[verifier::external_body]
fn debug_texts(v: &Vec<String>) -> (r: String)
    ensures
        r@ == debug_list(texts(v@)),
{
    format!("{:?}", v)
}

/// How a truth value is written.
pub open spec fn truth(b: bool) -> Seq<char> {
    if b {
        "true"@
    } else {
        "false"@
    }
}

pub(crate) fn truth_text(b: bool) -> (r: &'static str)
    ensures
        r@ == truth(b),
{
    if b {
        "true"
    } else {
        "false"
    }
}

pub open spec fn listing_tools(config: UnifiedConfig) -> Seq<char> {
    "\x1b[36m📋 Current wcc configuration:\x1b[0m\n  [wcc]\n    default_cargo_mode: \x1b[33m"@
        + config.wcc.default_cargo_mode@
        + "\x1b[0m\n    time_format: "@
        + config.wcc.time_format@
        + "\n  [wcn]\n    show_time_in_header: "@
        + truth(config.wcn.show_time_in_header)
        + "\n    use_file_modification_time: "@
        + truth(config.wcn.use_file_modification_time)
        + "\n  [wcp]\n    auto_backup: "@
        + truth(config.wcp.auto_backup)
        + "\n  [wcl]\n    max_file_size_kb: "@
        + dec(config.wcl.max_file_size_kb as nat)
}

fn list_tools(config: &UnifiedConfig) -> (r: String)
    ensures
        r@ == listing_tools(*config),
{
    let mut out: String = "\x1b[36m📋 Current wcc configuration:\x1b[0m\n  [wcc]\n    default_cargo_mode: \x1b[33m".to_owned();
    out.append(config.wcc.default_cargo_mode.as_str());
    out.append("\x1b[0m\n    time_format: ");
    out.append(config.wcc.time_format.as_str());
    out.append("\n  [wcn]\n    show_time_in_header: ");
    out.append(truth_text(config.wcn.show_time_in_header));
    out.append("\n    use_file_modification_time: ");
    out.append(truth_text(config.wcn.use_file_modification_time));
    out.append("\n  [wcp]\n    auto_backup: ");
    out.append(truth_text(config.wcp.auto_backup));
    out.append("\n  [wcl]\n    max_file_size_kb: ");
    out.append(decimal(config.wcl.max_file_size_kb as u64).as_str());
    out
}

pub open spec fn listing_limits(config: UnifiedConfig) -> Seq<char> {
    "\n    max_file_words_to_copy: "@
        + dec(config.wcl.max_file_words_to_copy as nat)
        + "\n    max_clipboard_bytes: "@
        + dec(config.wcl.max_clipboard_bytes as nat)
        + "\n    skip_patterns: "@
        + debug_list(texts(config.wcl.skip_patterns@))
        + "\n    skip_dirs: "@
        + debug_list(texts(config.wcl.skip_dirs@))
        + "\n    show_empty_files: "@
        + truth(config.wcl.show_empty_files)
        + "\n    show_stats_per_file: "@
        + truth(config.wcl.show_stats_per_file)
}

fn list_limits(config: &UnifiedConfig) -> (r: String)
    ensures
        r@ == listing_limits(*config),
{
    let mut out: String = "\n    max_file_words_to_copy: ".to_owned();
    out.append(decimal(config.wcl.max_file_words_to_copy as u64).as_str());
    out.append("\n    max_clipboard_bytes: ");
    out.append(decimal(config.wcl.max_clipboard_bytes as u64).as_str());
    out.append("\n    skip_patterns: ");
    out.append(debug_texts(&config.wcl.skip_patterns).as_str());
    out.append("\n    skip_dirs: ");
    out.append(debug_texts(&config.wcl.skip_dirs).as_str());
    out.append("\n    show_empty_files: ");
    out.append(truth_text(config.wcl.show_empty_files));
    out.append("\n    show_stats_per_file: ");
    out.append(truth_text(config.wcl.show_stats_per_file));
    out
}

pub open spec fn listing_flags(config: UnifiedConfig) -> Seq<char> {
    "\n    show_function_details: "@
        + truth(config.wcl.show_function_details)
        + "\n    show_class_details: "@
        + truth(config.wcl.show_class_details)
        + "\n    show_usage_stats: "@
        + truth(config.wcl.show_usage_stats)
        + "\n    max_files_to_display: "@
        + dec(config.wcl.max_files_to_display as nat)
        + "\n    min_function_lines: "@
        + dec(config.wcl.min_function_lines as nat)
        + "\n    min_class_lines: "@
        + dec(config.wcl.min_class_lines as nat)
}

fn list_flags(config: &UnifiedConfig) -> (r: String)
    ensures
        r@ == listing_flags(*config),
{
    let mut out: String = "\n    show_function_details: ".to_owned();
    out.append(truth_text(config.wcl.show_function_details));
    out.append("\n    show_class_details: ");
    out.append(truth_text(config.wcl.show_class_details));
    out.append("\n    show_usage_stats: ");
    out.append(truth_text(config.wcl.show_usage_stats));
    out.append("\n    max_files_to_display: ");
    out.append(decimal(config.wcl.max_files_to_display as u64).as_str());
    out.append("\n    min_function_lines: ");
    out.append(decimal(config.wcl.min_function_lines as u64).as_str());
    out.append("\n    min_class_lines: ");
    out.append(decimal(config.wcl.min_class_lines as u64).as_str());
    out
}

pub open spec fn listing_bounds(config: UnifiedConfig) -> Seq<char> {
    "\n    max_functions_per_file: "@
        + dec(config.wcl.max_functions_per_file as nat)
        + "\n    max_classes_per_file: "@
        + dec(config.wcl.max_classes_per_file as nat)
        + "\n    parallel_processing: "@
        + truth(config.wcl.parallel_processing)
        + "\n    max_threads: "@
        + dec(config.wcl.max_threads as nat)
        + "\n    copy_file_contents: "@
        + truth(config.wcl.copy_file_contents)
        + "\n  [wcf]\n    auto_format: "@
        + truth(config.wcf.auto_format)
}

fn list_bounds(config: &UnifiedConfig) -> (r: String)
    ensures
        r@ == listing_bounds(*config),
{
    let mut out: String = "\n    max_functions_per_file: ".to_owned();
    out.append(decimal(config.wcl.max_functions_per_file as u64).as_str());
    out.append("\n    max_classes_per_file: ");
    out.append(decimal(config.wcl.max_classes_per_file as u64).as_str());
    out.append("\n    parallel_processing: ");
    out.append(truth_text(config.wcl.parallel_processing));
    out.append("\n    max_threads: ");
    out.append(decimal(config.wcl.max_threads as u64).as_str());
    out.append("\n    copy_file_contents: ");
    out.append(truth_text(config.wcl.copy_file_contents));
    out.append("\n  [wcf]\n    auto_format: ");
    out.append(truth_text(config.wcf.auto_format));
    out
}

pub open spec fn listing_blocks(config: UnifiedConfig, path: Seq<char>) -> Seq<char> {
    "\n    show_buffer_preview: "@
        + truth(config.wcf.show_buffer_preview)
        + "\n  [wff]\n    show_line_numbers: "@
        + truth(config.wff.show_line_numbers)
        + "\n    show_time_in_header: "@
        + truth(config.wff.show_time_in_header)
        + "\n    use_file_modification_time: "@
        + truth(config.wff.use_file_modification_time)
        + "\n    time_format: "@
        + config.wff.time_format@
        + "\n  [wcg]\n    show_line_numbers: "@
        + truth(config.wcg.show_line_numbers)
        + "\n    show_calls: "@
        + truth(config.wcg.show_calls)
        + "\n    show_fields: "@
        + truth(config.wcg.show_fields)
        + "\n\n  Config file: \x1b[90m"@
        + path
        + "\x1b[0m\n"@
}

fn list_blocks(config: &UnifiedConfig, path: &str) -> (r: String)
    ensures
        r@ == listing_blocks(*config, path@),
{
    let mut out: String = "\n    show_buffer_preview: ".to_owned();
    out.append(truth_text(config.wcf.show_buffer_preview));
    out.append("\n  [wff]\n    show_line_numbers: ");
    out.append(truth_text(config.wff.show_line_numbers));
    out.append("\n    show_time_in_header: ");
    out.append(truth_text(config.wff.show_time_in_header));
    out.append("\n    use_file_modification_time: ");
    out.append(truth_text(config.wff.use_file_modification_time));
    out.append("\n    time_format: ");
    out.append(config.wff.time_format.as_str());
    out.append("\n  [wcg]\n    show_line_numbers: ");
    out.append(truth_text(config.wcg.show_line_numbers));
    out.append("\n    show_calls: ");
    out.append(truth_text(config.wcg.show_calls));
    out.append("\n    show_fields: ");
    out.append(truth_text(config.wcg.show_fields));
    out.append("\n\n  Config file: \x1b[90m");
    out.append(path);
    out.append("\x1b[0m\n");
    out
}

/// The listing of a configuration that lies at `path`.
pub open spec fn config_listing(config: UnifiedConfig, path: Seq<char>) -> Seq<char> {
    listing_tools(config) + listing_limits(config) + listing_flags(config) + listing_bounds(config)
        + listing_blocks(config, path)
}

/// The listing of a configuration that lies at `path`.
pub fn show_config(config: &UnifiedConfig, path: &str) -> (r: String)
    ensures
        r@ == config_listing(*config, path@),
{
    let mut out: String = list_tools(config);
    out.append(list_limits(config).as_str());
    out.append(list_flags(config).as_str());
    out.append(list_bounds(config).as_str());
    out.append(list_blocks(config, path).as_str());
    out
}

/// What is shown after a default configuration was written to `path`.
pub fn init_message(config: &UnifiedConfig, path: &str) -> (r: String)
    ensures
        r@ == "\x1b[32m✓ Created default config at: "@ + path@
            + "\x1b[0m\n\nDefault configuration includes:\n  [wcc] - cargo wrapper settings\n  [wcn] - file copy settings\n  [wcp] - paste settings\n  [wcl] - analyzer settings with "@
            + dec(config.wcl.skip_patterns@.len())
            + " skip patterns\n  [wcf] - function replacement settings\n  [wff] - wff (function finder) settings with time and line number options\n  [wcg] - code graph analyzer settings\n"@,
{
    let mut out: String = "\x1b[32m✓ Created default config at: ".to_owned();
    out.append(path);
    out.append(

        "\x1b[0m\n\nDefault configuration includes:\n  [wcc] - cargo wrapper settings\n  [wcn] - file copy settings\n  [wcp] - paste settings\n  [wcl] - analyzer settings with ",
    );
    out.append(decimal(config.wcl.skip_patterns.len() as u64).as_str());
    out.append(

        " skip patterns\n  [wcf] - function replacement settings\n  [wff] - wff (function finder) settings with time and line number options\n  [wcg] - code graph analyzer settings\n",
    );
    out
}

/// Whether an answer means yes: the letter y, in either case, with white space around it.
pub open spec fn means_yes(input: Seq<char>) -> bool {
    lowercase(trimmed(input)) == "y"@
}

/// Whether an answer means yes.
pub fn is_yes(input: &str) -> (r: bool)
    ensures
        r == means_yes(input@),
{
    let t: String = trim(input);
    let l: String = to_lowercase(t.as_str());
    same(l.as_str(), "y")
}

} // verus!
