//! What the analyser reports and copies.

use vstd::prelude::*;
use vstd::utf8::encode_utf8;
use crate::common::{
    calc_stats, hash_name, heat, heatmap_color_bytes, heatmap_color_chars, heatmap_color_lines,
    heatmap_color_words, hsl_to_rgb, hue_color, name_hash, word_count, Palette, TextStats,
};
use crate::config::WclConfig;
use crate::ordered::TextMap;
use crate::path::{extension, path_extension, relative, relative_to};
use crate::text::{capped, dec, decimal, newlines, repeat, repeated, texts};
use crate::unicode::{ascii_lowered, to_ascii_lowercase};
use crate::wcl::{
    all_uses, class_texts, classes_in, detect_classes_in_file, detect_functions_in_file,
    detect_usage_in_file, function_texts, functions_in, is_skipped_file, limits_of, should_skip_file,
    ClassInfo, ClassText, FunctionInfo, FunctionText,
};

verus! {

/// What is known of a file; its content where it was read.
#[derive(Debug, PartialEq, Eq)]
pub struct FileStats {
    pub path: String,
    pub content: Option<String>,
    pub lines: usize,
    pub words: usize,
    pub chars: usize,
    pub bytes: usize,
    pub functions: Vec<FunctionInfo>,
    pub classes: Vec<ClassInfo>,
    pub error: Option<String>,
    pub uses: TextMap<usize>,
}

/// What is known of a directory.
#[derive(Debug, PartialEq, Eq)]
pub struct DirectoryStats {
    pub files: usize,
    pub total_lines: usize,
    pub total_words: usize,
    pub total_chars: usize,
    pub total_bytes: usize,
    pub total_functions: usize,
    pub total_classes: usize,
    pub file_stats: Vec<FileStats>,
}

/// What a `FileStats` holds.
pub struct FileText {
    pub path: Seq<char>,
    pub content: Option<Seq<char>>,
    pub lines: nat,
    pub words: nat,
    pub chars: nat,
    pub bytes: nat,
    pub functions: Seq<FunctionText>,
    pub classes: Seq<ClassText>,
    pub error: Option<Seq<char>>,
    pub uses: Map<Seq<char>, usize>,
}

impl View for FileStats {
    type V = FileText;

    open spec fn view(&self) -> FileText {
        FileText {
            path: self.path@,
            content: match self.content {
                Some(c) => Some(c@),
                None => None,
            },
            lines: self.lines as nat,
            words: self.words as nat,
            chars: self.chars as nat,
            bytes: self.bytes as nat,
            functions: function_texts(self.functions@),
            classes: class_texts(self.classes@),
            error: match self.error {
                Some(e) => Some(e@),
                None => None,
            },
            uses: self.uses@,
        }
    }
}

/// What a list of files holds.
pub open spec fn file_texts(files: Seq<FileStats>) -> Seq<FileText> {
    files.map_values(|f: FileStats| f@)
}

/// A file as it was found: its size and its bytes where they could be had, and its text or what
/// stood against reading it.
#[derive(Debug, PartialEq, Eq)]
pub struct FoundFile {
    pub path: String,
    pub size: Option<u64>,
    pub bytes: Option<Vec<u8>>,
    pub content: Result<String, String>,
}

/// What a `FoundFile` holds.
pub struct FoundText {
    pub path: Seq<char>,
    pub size: Option<u64>,
    pub bytes: Option<Seq<u8>>,
    pub content: Result<Seq<char>, Seq<char>>,
}

impl View for FoundFile {
    type V = FoundText;

    open spec fn view(&self) -> FoundText {
        FoundText {
            path: self.path@,
            size: self.size,
            bytes: match self.bytes {
                Some(b) => Some(b@),
                None => None,
            },
            content: match self.content {
                Ok(c) => Ok(c@),
                Err(e) => Err(e@),
            },
        }
    }
}

/// What is known of a file that could not be analysed.
pub open spec fn failed_text(path: Seq<char>, error: Seq<char>) -> FileText {
    FileText {
        path,
        content: None,
        lines: 0,
        words: 0,
        chars: 0,
        bytes: 0,
        functions: Seq::empty(),
        classes: Seq::empty(),
        error: Some(error),
        uses: Map::empty(),
    }
}

/// What is known of a file that could not be analysed.
pub fn failed_file(path: &str, error: &str) -> (r: FileStats)
    ensures
        r@ == failed_text(path@, error@),
        r.uses.wf(),
{
    let r: FileStats = FileStats {
        path: path.to_owned(),
        content: None,
        lines: 0,
        words: 0,
        chars: 0,
        bytes: 0,
        functions: Vec::new(),
        classes: Vec::new(),
        error: Some(error.to_owned()),
        uses: TextMap::new(),
    };
    assert(r@.functions =~= Seq::<FunctionText>::empty());
    assert(r@.classes =~= Seq::<ClassText>::empty());
    r
}

/// The extension of a path in small letters; empty where it has none.
pub open spec fn small_extension(path: Seq<char>) -> Seq<char> {
    match path_extension(path) {
        Some(e) => ascii_lowered(e),
        None => Seq::empty(),
    }
}

fn lower_extension(path: &str) -> (r: String)
    ensures
        r@ == small_extension(path@),
{
    match extension(path) {
        Some(e) => to_ascii_lowercase(e.as_str()),
        None => String::new(),
    }
}

/// What the content of a file shows, as far as the configuration asks for it.
pub open spec fn content_text(
    path: Seq<char>,
    content: Seq<char>,
    config: WclConfig,
) -> FileText {
    let functions = if config.show_function_details {
        functions_in(
            content,
            small_extension(path),
            config.min_function_lines as nat,
            config.max_functions_per_file as nat,
        )
    } else {
        Seq::empty()
    };
    let classes = if config.show_class_details {
        classes_in(content, small_extension(path), limits_of(config))
    } else {
        Seq::empty()
    };
    FileText {
        path,
        content: Some(content),
        lines: newlines(content),
        words: word_count(content),
        chars: content.len(),
        bytes: encode_utf8(content).len(),
        functions,
        classes,
        error: None,
        uses: if config.show_usage_stats && (config.show_function_details
            || config.show_class_details) {
            all_uses(content, functions, classes)
        } else {
            Map::empty()
        },
    }
}

/// What the content of a file shows, as far as the configuration asks for it.
pub fn analyze_content(path: &str, content: &str, config: &WclConfig) -> (r: FileStats)
    ensures
        r@ == content_text(path@, content@, *config),
        r.uses.wf(),
{
    let calc: TextStats = calc_stats(content);
    let ext: String = lower_extension(path);
    let functions: Vec<FunctionInfo> = if config.show_function_details {
        detect_functions_in_file(content, ext.as_str(), config)
    } else {
        Vec::new()
    };
    let classes: Vec<ClassInfo> = if config.show_class_details {
        detect_classes_in_file(content, ext.as_str(), config)
    } else {
        Vec::new()
    };
    let uses: TextMap<usize> = if config.show_usage_stats && (config.show_function_details
        || config.show_class_details) {
        detect_usage_in_file(content, functions.as_slice(), classes.as_slice())
    } else {
        TextMap::new()
    };
    assert(!config.show_function_details ==> function_texts(functions@) =~= Seq::<
        FunctionText,
    >::empty());
    assert(!config.show_class_details ==> class_texts(classes@) =~= Seq::<ClassText>::empty());
    FileStats {
        path: path.to_owned(),
        content: Some(content.to_owned()),
        lines: calc.lines,
        words: calc.words,
        chars: calc.chars,
        bytes: calc.bytes,
        functions,
        classes,
        error: None,
        uses,
    }
}

/// What is known of a file that was found: what its text shows, unless it is passed over or could
/// not be read.
pub open spec fn found_text(found: FoundText, config: WclConfig) -> FileText {
    if is_skipped_file(
        found.path,
        found.size,
        found.bytes,
        config.max_file_size_kb as nat,
        texts(config.skip_patterns@),
    ) {
        failed_text(found.path, "Skipped (binary/large/pattern)"@)
    } else {
        match found.content {
            Ok(c) => content_text(found.path, c, config),
            Err(e) => failed_text(found.path, "Failed to read: "@ + e),
        }
    }
}

/// What is known of a file that was found.
pub fn analyze_file(found: &FoundFile, config: &WclConfig) -> (r: FileStats)
    ensures
        r@ == found_text(found@, *config),
        r.uses.wf(),
{
    let bytes: Option<&[u8]> = match &found.bytes {
        Some(b) => Some(b.as_slice()),
        None => None,
    };
    if should_skip_file(found.path.as_str(), found.size, bytes, config) {
        return failed_file(found.path.as_str(), "Skipped (binary/large/pattern)");
    }
    match &found.content {
        Ok(c) => analyze_content(found.path.as_str(), c.as_str(), config),
        Err(e) => {
            let mut error: String = "Failed to read: ".to_owned();
            error.append(e.as_str());
            failed_file(found.path.as_str(), error.as_str())
        },
    }
}

/// Whether a file counts: it was read, and is not empty unless empty files are asked for.
pub open spec fn counts(f: FileStats, show_empty: bool) -> bool {
    (f.lines > 0 || show_empty) && f.error is None
}

/// The files that count, in order.
pub open spec fn counted(files: Seq<FileStats>, show_empty: bool) -> Seq<FileStats>
    decreases files.len(),
{
    if files.len() == 0 {
        Seq::empty()
    } else {
        let earlier = counted(files.drop_last(), show_empty);
        if counts(files.last(), show_empty) {
            earlier.push(files.last())
        } else {
            earlier
        }
    }
}

/// The sizes of files, all together.
pub struct Totals {
    pub lines: nat,
    pub words: nat,
    pub chars: nat,
    pub bytes: nat,
    pub functions: nat,
    pub classes: nat,
}

/// The sizes of files, all together.
pub open spec fn totals(files: Seq<FileStats>) -> Totals
    decreases files.len(),
{
    if files.len() == 0 {
        Totals { lines: 0, words: 0, chars: 0, bytes: 0, functions: 0, classes: 0 }
    } else {
        let t = totals(files.drop_last());
        let f = files.last();
        Totals {
            lines: t.lines + f.lines as nat,
            words: t.words + f.words as nat,
            chars: t.chars + f.chars as nat,
            bytes: t.bytes + f.bytes as nat,
            functions: t.functions + f.functions@.len(),
            classes: t.classes + f.classes@.len(),
        }
    }
}

/// Whether the numbers of a directory are those of its files; a sum that is too large counts as
/// the largest number.
pub open spec fn adds_up(d: DirectoryStats) -> bool {
    let t = totals(d.file_stats@);
    &&& d.files == d.file_stats@.len()
    &&& d.total_lines == capped(t.lines)
    &&& d.total_words == capped(t.words)
    &&& d.total_chars == capped(t.chars)
    &&& d.total_bytes == capped(t.bytes)
    &&& d.total_functions == capped(t.functions)
    &&& d.total_classes == capped(t.classes)
}

impl DirectoryStats {
    pub fn new() -> (r: DirectoryStats)
        ensures
            adds_up(r),
            r.file_stats@ == Seq::<FileStats>::empty(),
    {
        DirectoryStats {
            files: 0,
            total_lines: 0,
            total_words: 0,
            total_chars: 0,
            total_bytes: 0,
            total_functions: 0,
            total_classes: 0,
            file_stats: Vec::new(),
        }
    }

    /// Takes a file up.
    pub fn add_file(&mut self, f: FileStats)
        requires
            adds_up(*old(self)),
        ensures
            adds_up(*final(self)),
            final(self).file_stats@ == old(self).file_stats@.push(f),
    {
        let ghost was = self.file_stats@;
        self.total_lines = self.total_lines.saturating_add(f.lines);
        self.total_words = self.total_words.saturating_add(f.words);
        self.total_chars = self.total_chars.saturating_add(f.chars);
        self.total_bytes = self.total_bytes.saturating_add(f.bytes);
        self.total_functions = self.total_functions.saturating_add(f.functions.len());
        self.total_classes = self.total_classes.saturating_add(f.classes.len());
        self.file_stats.push(f);
        self.files = self.file_stats.len();
        assert(self.file_stats@.drop_last() =~= was);
    }
}

/// What is known of a directory with one file, or of the one file that was asked for.
pub fn single_file(f: FileStats) -> (r: DirectoryStats)
    ensures
        adds_up(r),
        r.file_stats@ == seq![f],
{
    let mut d: DirectoryStats = DirectoryStats::new();
    d.add_file(f);
    assert(d.file_stats@ =~= seq![f]);
    d
}

/// Whether a directory holds those of these files that count, in order, and the sums over them.
pub open spec fn is_collected(
    d: DirectoryStats,
    files: Seq<FileStats>,
    config: WclConfig,
) -> bool {
    adds_up(d) && d.file_stats@ == counted(files, config.show_empty_files)
}

/// What is known of a directory with these files.
pub fn collect_stats(files: Vec<FileStats>, config: &WclConfig) -> (r: DirectoryStats)
    ensures
        is_collected(r, files@, *config),
        forall|i: int|
            0 <= i < r.file_stats@.len() ==> counts(
                #[trigger] r.file_stats@[i],
                config.show_empty_files,
            ),
{
    let ghost all = files@;
    let mut rest: Vec<FileStats> = files;
    let mut d: DirectoryStats = DirectoryStats::new();
    let ghost mut k: int = 0;
    assert(all.skip(0) =~= all);
    assert(all.take(0) =~= Seq::<FileStats>::empty());
    while rest.len() > 0
        invariant
            0 <= k <= all.len(),
            rest@ == all.skip(k),
            adds_up(d),
            d.file_stats@ == counted(all.take(k), config.show_empty_files),
        decreases rest@.len(),
    {
        assert(all.take(k + 1).drop_last() =~= all.take(k));
        let f: FileStats = rest.remove(0);
        assert(rest@ =~= all.skip(k + 1));
        let keep: bool = (f.lines > 0 || config.show_empty_files) && f.error.is_none();
        if keep {
            d.add_file(f);
        }
        proof {
            k = k + 1;
        }
    }
    assert(all.take(k) =~= all);
    proof {
        lemma_counted_count(all, config.show_empty_files);
    }
    d
}

proof fn lemma_counted_count(files: Seq<FileStats>, show_empty: bool)
    ensures
        forall|i: int|
            0 <= i < counted(files, show_empty).len() ==> counts(
                #[trigger] counted(files, show_empty)[i],
                show_empty,
            ),
    decreases files.len(),
{
    if files.len() > 0 {
        lemma_counted_count(files.drop_last(), show_empty);
        let all = counted(files, show_empty);
        let earlier = counted(files.drop_last(), show_empty);
        assert forall|i: int| 0 <= i < all.len() implies counts(#[trigger] all[i], show_empty) by {
            if i < earlier.len() {
                assert(all[i] == earlier[i]);
            }
        }
    }
}

/// Whether two configurations are the same but for how the work is shared out.
pub open spec fn same_but_threads(a: WclConfig, b: WclConfig) -> bool {
    &&& a.max_file_size_kb == b.max_file_size_kb
    &&& a.max_file_words_to_copy == b.max_file_words_to_copy
    &&& a.max_clipboard_bytes == b.max_clipboard_bytes
    &&& texts(a.skip_patterns@) == texts(b.skip_patterns@)
    &&& texts(a.skip_dirs@) == texts(b.skip_dirs@)
    &&& a.show_empty_files == b.show_empty_files
    &&& a.show_stats_per_file == b.show_stats_per_file
    &&& a.show_function_details == b.show_function_details
    &&& a.show_class_details == b.show_class_details
    &&& a.show_usage_stats == b.show_usage_stats
    &&& a.max_files_to_display == b.max_files_to_display
    &&& a.min_function_lines == b.min_function_lines
    &&& a.min_class_lines == b.min_class_lines
    &&& a.max_functions_per_file == b.max_functions_per_file
    &&& a.max_classes_per_file == b.max_classes_per_file
    &&& a.copy_file_contents == b.copy_file_contents
}

/// What is known of each of the files that were found, in order.
pub open spec fn found_texts(found: Seq<FoundText>, config: WclConfig) -> Seq<FileText> {
    found.map_values(|f: FoundText| found_text(f, config))
}

proof fn lemma_collected_alike(a: Seq<FileStats>, b: Seq<FileStats>, show_empty: bool)
    requires
        file_texts(a) == file_texts(b),
    ensures
        file_texts(counted(a, show_empty)) == file_texts(counted(b, show_empty)),
        totals(counted(a, show_empty)) == totals(counted(b, show_empty)),
    decreases a.len(),
{
    assert(a.len() == file_texts(a).len());
    assert(b.len() == file_texts(b).len());
    if a.len() > 0 {
        let n = a.len() - 1;
        assert(file_texts(a.drop_last()) =~= file_texts(a).take(n));
        assert(file_texts(b.drop_last()) =~= file_texts(b).take(n));
        lemma_collected_alike(a.drop_last(), b.drop_last(), show_empty);
        let x = a.last();
        let y = b.last();
        assert(x@ == file_texts(a)[n]);
        assert(y@ == file_texts(b)[n]);
        let ca = counted(a.drop_last(), show_empty);
        let cb = counted(b.drop_last(), show_empty);
        assert(function_texts(x.functions@).len() == function_texts(y.functions@).len());
        assert(class_texts(x.classes@).len() == class_texts(y.classes@).len());
        assert(counts(x, show_empty) == counts(y, show_empty));
        assert(file_texts(ca.push(x)) =~= file_texts(ca).push(x@));
        assert(file_texts(cb.push(y)) =~= file_texts(cb).push(y@));
        assert(ca.push(x).drop_last() =~= ca);
        assert(cb.push(y).drop_last() =~= cb);
    }
}

/// Whether files are analysed side by side, and by how many threads, changes nothing in what is
/// known of a directory: `found` is what lies in it, `p` and `q` are what is known of each file by
/// one configuration and by the other, `d` and `e` what is collected from them.
pub proof fn law_threads_change_nothing(
    found: Seq<FoundText>,
    a: WclConfig,
    b: WclConfig,
    p: Seq<FileStats>,
    q: Seq<FileStats>,
    d: DirectoryStats,
    e: DirectoryStats,
)
    requires
        same_but_threads(a, b),
        file_texts(p) == found_texts(found, a),
        file_texts(q) == found_texts(found, b),
        is_collected(d, p, a),
        is_collected(e, q, b),
    ensures
        file_texts(d.file_stats@) == file_texts(e.file_stats@),
        d.files == e.files,
        d.total_lines == e.total_lines,
        d.total_words == e.total_words,
        d.total_chars == e.total_chars,
        d.total_bytes == e.total_bytes,
        d.total_functions == e.total_functions,
        d.total_classes == e.total_classes,
{
    assert forall|f: FoundText| #[trigger] found_text(f, a) == found_text(f, b) by {
        assert(limits_of(a) == limits_of(b));
    }
    assert(found_texts(found, a) =~= found_texts(found, b));
    lemma_collected_alike(p, q, a.show_empty_files);
    assert(d.file_stats@.len() == file_texts(d.file_stats@).len());
    assert(e.file_stats@.len() == file_texts(e.file_stats@).len());
}

/// The colour that a file name has in the report.
pub open spec fn report_color(name: Seq<char>) -> Seq<char> {
    let c = hue_color(Palette::Report, name_hash(name, 31) % 360);
    "\x1b[38;2;"@ + dec(c.0 as nat) + ";"@ + dec(c.1 as nat) + ";"@ + dec(c.2 as nat) + "m"@
}

/// What sets the colour that a file name has in the report, the same every time.
pub fn get_consistent_color(filename: &str) -> (r: String)
    ensures
        r@ == report_color(filename@),
{
    let c: (u8, u8, u8) = hsl_to_rgb(Palette::Report, hash_name(filename, 31) % 360);
    let mut out: String = "\x1b[38;2;".to_owned();
    out.append(decimal(c.0 as u64).as_str());
    out.append(";");
    out.append(decimal(c.1 as u64).as_str());
    out.append(";");
    out.append(decimal(c.2 as u64).as_str());
    out.append("m");
    out
}

/// At most the first `n` of a list.
pub open spec fn first_of<T>(s: Seq<T>, n: int) -> Seq<T> {
    if n < s.len() {
        s.take(n)
    } else {
        s
    }
}

/// The line that stands for the rest of a list of which `n` entries are shown.
pub open spec fn rest_line(len: nat, n: int, start: Seq<char>, end: Seq<char>) -> Seq<char> {
    if len > n {
        start + dec((len - n) as nat) + end
    } else {
        Seq::empty()
    }
}

fn show_rest(len: usize, n: usize, start: &str, end: &str) -> (r: String)
    ensures
        r@ == rest_line(len as nat, n as int, start@, end@),
{
    if len > n {
        let mut out: String = start.to_owned();
        out.append(decimal((len - n) as u64).as_str());
        out.append(end);
        out
    } else {
        String::new()
    }
}

/// A function as it is reported.
pub open spec fn function_row(f: FunctionInfo) -> Seq<char> {
    "        • "@ + f.name@ + " ("@ + heat(f.lines as nat, 2_000) + " lines, "@ + heat(
        f.words as nat,
        200_000,
    ) + " words, "@ + heat(f.chars as nat, 50_000) + " chars) [L"@ + dec(f.start_line as nat)
        + "-L"@ + dec(f.end_line as nat) + "]\n"@
}

pub open spec fn function_rows(fs: Seq<FunctionInfo>) -> Seq<char>
    decreases fs.len(),
{
    if fs.len() == 0 {
        Seq::empty()
    } else {
        function_rows(fs.drop_last()) + function_row(fs.last())
    }
}

fn show_function(f: &FunctionInfo) -> (r: String)
    ensures
        r@ == function_row(*f),
{
    let mut out: String = "        • ".to_owned();
    out.append(f.name.as_str());
    out.append(" (");
    out.append(heatmap_color_lines(f.lines).as_str());
    out.append(" lines, ");
    out.append(heatmap_color_words(f.words).as_str());
    out.append(" words, ");
    out.append(heatmap_color_chars(f.chars).as_str());
    out.append(" chars) [L");
    out.append(decimal(f.start_line as u64).as_str());
    out.append("-L");
    out.append(decimal(f.end_line as u64).as_str());
    out.append("]\n");
    out
}

/// The smaller of a limit and twenty.
pub open spec fn shown_at_most(limit: usize) -> int {
    if limit < 20 {
        limit as int
    } else {
        20
    }
}

fn at_most_twenty(limit: usize) -> (r: usize)
    ensures
        r == shown_at_most(limit),
{
    if limit < 20 {
        limit
    } else {
        20
    }
}

/// The part of a file's report that lists its functions.
pub open spec fn functions_part(fs: Seq<FunctionInfo>, config: WclConfig) -> Seq<char> {
    let n = shown_at_most(config.max_functions_per_file);
    if config.show_function_details && fs.len() > 0 {
        "     🎯 Functions ("@ + dec(fs.len()) + ")\n"@ + function_rows(first_of(fs, n)) + rest_line(
            fs.len(),
            n,
            "        ... and "@,
            " more\n"@,
        )
    } else {
        Seq::empty()
    }
}

#[verifier::rlimit(20)]
fn show_functions(fs: &[FunctionInfo], config: &WclConfig) -> (r: String)
    ensures
        r@ == functions_part(fs@, *config),
{
    if !config.show_function_details || fs.len() == 0 {
        return String::new();
    }
    let n: usize = at_most_twenty(config.max_functions_per_file);
    let shown: usize = if n < fs.len() {
        n
    } else {
        fs.len()
    };
    let mut rows: String = String::new();
    let mut i: usize = 0;
    while i < shown
        invariant
            i <= shown <= fs@.len(),
            rows@ == function_rows(fs@.take(i as int)),
        decreases shown - i,
    {
        assert(fs@.take(i + 1).drop_last() =~= fs@.take(i as int));
        rows.append(show_function(&fs[i]).as_str());
        i += 1;
    }
    assert(fs@.take(shown as int) =~= first_of(fs@, n as int));
    let mut out: String = "     🎯 Functions (".to_owned();
    out.append(decimal(fs.len() as u64).as_str());
    out.append(")\n");
    out.append(rows.as_str());
    out.append(show_rest(fs.len(), n, "        ... and ", " more\n").as_str());
    out
}

/// A method as it is reported.
pub open spec fn method_row(m: FunctionInfo) -> Seq<char> {
    "          └─ "@ + m.name@ + " ("@ + heat(m.lines as nat, 2_000) + " lines) [L"@ + dec(
        m.start_line as nat,
    ) + "-L"@ + dec(m.end_line as nat) + "]\n"@
}

pub open spec fn method_rows(ms: Seq<FunctionInfo>) -> Seq<char>
    decreases ms.len(),
{
    if ms.len() == 0 {
        Seq::empty()
    } else {
        method_rows(ms.drop_last()) + method_row(ms.last())
    }
}

fn show_method(m: &FunctionInfo) -> (r: String)
    ensures
        r@ == method_row(*m),
{
    let mut out: String = "          └─ ".to_owned();
    out.append(m.name.as_str());
    out.append(" (");
    out.append(heatmap_color_lines(m.lines).as_str());
    out.append(" lines) [L");
    out.append(decimal(m.start_line as u64).as_str());
    out.append("-L");
    out.append(decimal(m.end_line as u64).as_str());
    out.append("]\n");
    out
}

/// A type as it is reported, with its first five methods.
#[verifier::opaque]
pub open spec fn class_row(c: ClassInfo) -> Seq<char> {
    "        • "@ + c.name@ + " ("@ + heat(c.lines as nat, 2_000) + " lines, "@ + heat(
        c.words as nat,
        200_000,
    ) + " words, "@ + heat(c.chars as nat, 50_000) + " chars) [L"@ + dec(c.start_line as nat)
        + "-L"@ + dec(c.end_line as nat) + "]\n"@ + method_rows(first_of(c.methods@, 5))
        + rest_line(
        c.methods@.len(),
        5,
        "          └─ ... and "@,
        " more methods\n"@,
    )
}

fn show_methods(ms: &[FunctionInfo]) -> (r: String)
    ensures
        r@ == method_rows(first_of(ms@, 5)),
{
    let shown: usize = if 5 < ms.len() {
        5
    } else {
        ms.len()
    };
    let mut rows: String = String::new();
    let mut i: usize = 0;
    while i < shown
        invariant
            i <= shown <= ms@.len(),
            rows@ == method_rows(ms@.take(i as int)),
        decreases shown - i,
    {
        assert(ms@.take(i + 1).drop_last() =~= ms@.take(i as int));
        rows.append(show_method(&ms[i]).as_str());
        i += 1;
    }
    assert(ms@.take(shown as int) =~= first_of(ms@, 5));
    rows
}

fn show_class(c: &ClassInfo) -> (r: String)
    ensures
        r@ == class_row(*c),
{
    reveal(class_row);
    let mut out: String = "        • ".to_owned();
    out.append(c.name.as_str());
    out.append(" (");
    out.append(heatmap_color_lines(c.lines).as_str());
    out.append(" lines, ");
    out.append(heatmap_color_words(c.words).as_str());
    out.append(" words, ");
    out.append(heatmap_color_chars(c.chars).as_str());
    out.append(" chars) [L");
    out.append(decimal(c.start_line as u64).as_str());
    out.append("-L");
    out.append(decimal(c.end_line as u64).as_str());
    out.append("]\n");
    out.append(show_methods(c.methods.as_slice()).as_str());
    out.append(
        show_rest(c.methods.len(), 5, "          └─ ... and ", " more methods\n").as_str(),
    );
    out
}

pub open spec fn class_rows(cs: Seq<ClassInfo>) -> Seq<char>
    decreases cs.len(),
{
    if cs.len() == 0 {
        Seq::empty()
    } else {
        class_rows(cs.drop_last()) + class_row(cs.last())
    }
}

/// The part of a file's report that lists its types.
pub open spec fn classes_part(cs: Seq<ClassInfo>, config: WclConfig) -> Seq<char> {
    let n = shown_at_most(config.max_classes_per_file);
    if config.show_class_details && cs.len() > 0 {
        "     📦 Classes/Structs ("@ + dec(cs.len()) + ")\n"@ + class_rows(first_of(cs, n))
            + rest_line(cs.len(), n, "        ... and "@, " more\n"@)
    } else {
        Seq::empty()
    }
}

fn show_class_rows(cs: &[ClassInfo], n: usize) -> (r: String)
    ensures
        r@ == class_rows(first_of(cs@, n as int)),
{
    let shown: usize = if n < cs.len() {
        n
    } else {
        cs.len()
    };
    let mut rows: String = String::new();
    let mut i: usize = 0;
    while i < shown
        invariant
            i <= shown <= cs@.len(),
            rows@ == class_rows(cs@.take(i as int)),
        decreases shown - i,
    {
        assert(cs@.take(i + 1).drop_last() =~= cs@.take(i as int));
        rows.append(show_class(&cs[i]).as_str());
        i += 1;
    }
    assert(cs@.take(shown as int) =~= first_of(cs@, n as int));
    rows
}

fn show_classes(cs: &[ClassInfo], config: &WclConfig) -> (r: String)
    ensures
        r@ == classes_part(cs@, *config),
{
    if !config.show_class_details || cs.len() == 0 {
        return String::new();
    }
    let n: usize = at_most_twenty(config.max_classes_per_file);
    let mut out: String = "     📦 Classes/Structs (".to_owned();
    out.append(decimal(cs.len() as u64).as_str());
    out.append(")\n");
    out.append(show_class_rows(cs, n).as_str());
    out.append(show_rest(cs.len(), n, "        ... and ", " more\n").as_str());
    out
}

/// The uses as they are reported, in the order of the names.
pub open spec fn use_rows(keys: Seq<Seq<char>>, values: Seq<usize>, n: int) -> Seq<char>
    decreases n,
{
    if n <= 0 {
        Seq::empty()
    } else {
        use_rows(keys, values, n - 1) + "        • "@ + keys[n - 1] + " used "@ + dec(
            values[n - 1] as nat,
        ) + " times\n"@
    }
}

/// The part of a file's report that tells how often names are used.
pub open spec fn uses_part(uses: TextMap<usize>, config: WclConfig) -> Seq<char> {
    let len = uses.keys().len();
    if config.show_usage_stats && len > 0 {
        "     📊 Usage statistics:\n"@ + use_rows(
            uses.keys(),
            uses.values(),
            if len < 10 {
                len as int
            } else {
                10
            },
        ) + rest_line(len, 10, "        ... and "@, " more\n"@)
    } else {
        Seq::empty()
    }
}

fn show_uses(uses: &TextMap<usize>, config: &WclConfig) -> (r: String)
    requires
        uses.wf(),
    ensures
        r@ == uses_part(*uses, *config),
{
    let len: usize = uses.len();
    if !config.show_usage_stats || len == 0 {
        return String::new();
    }
    let n: usize = if len < 10 {
        len
    } else {
        10
    };
    let mut rows: String = String::new();
    let mut i: usize = 0;
    while i < n
        invariant
            i <= n <= len == uses.keys().len(),
            len == uses.values().len(),
            rows@ == use_rows(uses.keys(), uses.values(), i as int),
        decreases n - i,
    {
        rows.append("        • ");
        rows.append(uses.key_at(i).as_str());
        rows.append(" used ");
        rows.append(decimal(*uses.value_at(i) as u64).as_str());
        rows.append(" times\n");
        i += 1;
    }
    let mut out: String = "     📊 Usage statistics:\n".to_owned();
    out.append(rows.as_str());
    out.append(show_rest(len, 10, "        ... and ", " more\n").as_str());
    out
}

/// The sizes of a file as they are reported.
pub open spec fn sizes_row(f: FileStats) -> Seq<char> {
    "     Lines: "@ + heat(f.lines as nat, 2_000) + " | Words: "@ + heat(f.words as nat, 200_000)
        + " | Chars: "@ + heat(f.chars as nat, 50_000) + " | Bytes: "@ + heat(
        f.bytes as nat,
        50_000,
    ) + "\n"@
}

fn show_sizes(f: &FileStats) -> (r: String)
    ensures
        r@ == sizes_row(*f),
{
    let mut out: String = "     Lines: ".to_owned();
    out.append(heatmap_color_lines(f.lines).as_str());
    out.append(" | Words: ");
    out.append(heatmap_color_words(f.words).as_str());
    out.append(" | Chars: ");
    out.append(heatmap_color_chars(f.chars).as_str());
    out.append(" | Bytes: ");
    out.append(heatmap_color_bytes(f.bytes).as_str());
    out.append("\n");
    out
}

/// The report on a file, under its path as seen from `root`.
pub open spec fn file_report(f: FileStats, root: Seq<char>, config: WclConfig) -> Seq<char> {
    let path = relative(f.path@, root);
    let head = "\n  📄 "@ + report_color(path) + path + "\x1b[0m\n"@;
    match f.error {
        Some(e) => head + "     ⚠ "@ + e@ + "\n"@,
        None => head + sizes_row(f) + functions_part(f.functions@, config) + classes_part(
            f.classes@,
            config,
        ) + uses_part(f.uses, config),
    }
}

fn report_file(f: &FileStats, root: &str, config: &WclConfig) -> (r: String)
    requires
        f.uses.wf(),
    ensures
        r@ == file_report(*f, root@, *config),
{
    let path: String = relative_to(f.path.as_str(), root);
    let mut out: String = "\n  📄 ".to_owned();
    out.append(get_consistent_color(path.as_str()).as_str());
    out.append(path.as_str());
    out.append("\x1b[0m\n");
    match &f.error {
        Some(e) => {
            out.append("     ⚠ ");
            out.append(e.as_str());
            out.append("\n");
        },
        None => {
            out.append(show_sizes(f).as_str());
            out.append(show_functions(f.functions.as_slice(), config).as_str());
            out.append(show_classes(f.classes.as_slice(), config).as_str());
            out.append(show_uses(&f.uses, config).as_str());
        },
    }
    out
}

pub open spec fn file_reports(fs: Seq<FileStats>, root: Seq<char>, config: WclConfig) -> Seq<char>
    decreases fs.len(),
{
    if fs.len() == 0 {
        Seq::empty()
    } else {
        file_reports(fs.drop_last(), root, config) + file_report(fs.last(), root, config)
    }
}

/// The part of the report that goes through the files.
pub open spec fn files_part(fs: Seq<FileStats>, root: Seq<char>, config: WclConfig) -> Seq<char> {
    let n = config.max_files_to_display as int;
    if config.show_stats_per_file && fs.len() > 0 {
        "\n📁 Per-file Statistics:\n"@ + repeated('-', 80) + "\n"@ + file_reports(
            first_of(fs, n),
            root,
            config,
        ) + rest_line(fs.len(), n, "\n  ... and "@, " more files not shown\n"@)
    } else {
        Seq::empty()
    }
}

/// Whether the uses of every file are well kept.
pub open spec fn uses_kept(fs: Seq<FileStats>) -> bool {
    forall|i: int| 0 <= i < fs.len() ==> (#[trigger] fs[i]).uses.wf()
}

fn show_files(fs: &[FileStats], root: &str, config: &WclConfig) -> (r: String)
    requires
        uses_kept(fs@),
    ensures
        r@ == files_part(fs@, root@, *config),
{
    if !config.show_stats_per_file || fs.len() == 0 {
        return String::new();
    }
    let n: usize = config.max_files_to_display;
    let shown: usize = if n < fs.len() {
        n
    } else {
        fs.len()
    };
    let mut rows: String = String::new();
    let mut i: usize = 0;
    while i < shown
        invariant
            i <= shown <= fs@.len(),
            uses_kept(fs@),
            rows@ == file_reports(fs@.take(i as int), root@, *config),
        decreases shown - i,
    {
        assert(fs@.take(i + 1).drop_last() =~= fs@.take(i as int));
        assert(fs@[i as int].uses.wf());
        rows.append(report_file(&fs[i], root, config).as_str());
        i += 1;
    }
    assert(fs@.take(shown as int) =~= first_of(fs@, n as int));
    let mut out: String = "\n📁 Per-file Statistics:\n".to_owned();
    out.append(repeat('-', 80).as_str());
    out.append("\n");
    out.append(rows.as_str());
    out.append(show_rest(fs.len(), n, "\n  ... and ", " more files not shown\n").as_str());
    out
}

/// The part of the report that sums the directory up.
pub open spec fn summary_part(d: DirectoryStats, config: WclConfig) -> Seq<char> {
    "\n📈 Summary:\n  Files analyzed: "@ + dec(d.files as nat) + "\n  Total lines: "@ + heat(
        d.total_lines as nat,
        2_000,
    ) + "\n  Total words: "@ + heat(d.total_words as nat, 200_000) + "\n  Total chars: "@ + heat(
        d.total_chars as nat,
        50_000,
    ) + "\n  Total bytes: "@ + heat(d.total_bytes as nat, 50_000) + "\n"@ + (
    if config.show_function_details {
        "  Total functions: "@ + dec(d.total_functions as nat) + "\n"@
    } else {
        Seq::empty()
    }) + (if config.show_class_details {
        "  Total classes/structs: "@ + dec(d.total_classes as nat) + "\n"@
    } else {
        Seq::empty()
    })
}

fn show_summary(d: &DirectoryStats, config: &WclConfig) -> (r: String)
    ensures
        r@ == summary_part(*d, *config),
{
    let mut out: String = "\n📈 Summary:\n  Files analyzed: ".to_owned();
    out.append(decimal(d.files as u64).as_str());
    out.append("\n  Total lines: ");
    out.append(heatmap_color_lines(d.total_lines).as_str());
    out.append("\n  Total words: ");
    out.append(heatmap_color_words(d.total_words).as_str());
    out.append("\n  Total chars: ");
    out.append(heatmap_color_chars(d.total_chars).as_str());
    out.append("\n  Total bytes: ");
    out.append(heatmap_color_bytes(d.total_bytes).as_str());
    out.append("\n");
    let mut functions: String = String::new();
    if config.show_function_details {
        functions = "  Total functions: ".to_owned();
        functions.append(decimal(d.total_functions as u64).as_str());
        functions.append("\n");
    }
    out.append(functions.as_str());
    let mut classes: String = String::new();
    if config.show_class_details {
        classes = "  Total classes/structs: ".to_owned();
        classes.append(decimal(d.total_classes as u64).as_str());
        classes.append("\n");
    }
    out.append(classes.as_str());
    out
}

/// The report on a directory.
pub open spec fn report(d: DirectoryStats, root: Seq<char>, config: WclConfig) -> Seq<char> {
    "📊 Directory Analysis: "@ + root + "\n"@ + repeated('=', 80) + "\n"@ + summary_part(d, config)
        + files_part(d.file_stats@, root, config) + "\n"@ + repeated('=', 80) + "\n"@
}

/// The report on a directory.
pub fn format_report(stats: &DirectoryStats, root: &str, config: &WclConfig) -> (r: String)
    requires
        uses_kept(stats.file_stats@),
    ensures
        r@ == report(*stats, root@, *config),
{
    let mut out: String = "📊 Directory Analysis: ".to_owned();
    out.append(root);
    out.append("\n");
    out.append(repeat('=', 80).as_str());
    out.append("\n");
    out.append(show_summary(stats, config).as_str());
    out.append(show_files(stats.file_stats.as_slice(), root, config).as_str());
    out.append("\n");
    out.append(repeat('=', 80).as_str());
    out.append("\n");
    out
}

} // verus!
