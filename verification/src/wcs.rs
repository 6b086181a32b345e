//! Replacing a string in the source files of a directory.

use vstd::prelude::*;
use vstd::utf8::is_ascii_chars;
use crate::config::UnifiedConfig;
use crate::path::{extension, file_name, name_of, path_extension};
use crate::text::{
    capped, chars_of, contains, contains_text, count, count_of, dec, decimal, ends_with, occurs,
    occurs_at, opt_text, replace, replaced, same, string_of, texts, trim, trim_start_char, trimmed,
    without_start,
};
use crate::unicode::{ascii_lowered, lowercase, to_lowercase};

verus! {

/// What is asked for: the string to replace, the one to put in its place, and what overrides the
/// configuration.
#[derive(Debug, PartialEq, Eq)]
pub struct Args {
    pub old_string: String,
    pub new_string: String,
    pub directory: String,
    pub pattern: Option<String>,
    pub backup: Option<bool>,
    pub dry_run: Option<bool>,
    pub ignore_case: Option<bool>,
    pub verbose: Option<bool>,
}

/// How replacement is done.
#[derive(Clone, Copy, Debug, PartialEq, Eq, Structural)]
pub struct Settings {
    pub auto_backup: bool,
    pub dry_run: bool,
    pub case_sensitive: bool,
    pub show_line_details: bool,
}

/// How replacement is done: as asked for, else as configured.
pub fn settings(args: &Args, config: &UnifiedConfig) -> (r: Settings)
    ensures
        r.auto_backup == (match args.backup {
            Some(b) => b,
            None => config.wrs.auto_backup,
        }),
        r.dry_run == (match args.dry_run {
            Some(b) => b,
            None => config.wrs.dry_run_by_default,
        }),
        r.case_sensitive == (match args.ignore_case {
            Some(b) => !b,
            None => config.wrs.case_sensitive,
        }),
        r.show_line_details == (match args.verbose {
            Some(b) => b,
            None => config.wrs.show_line_details,
        }),
{
    Settings {
        auto_backup: match args.backup {
            Some(b) => b,
            None => config.wrs.auto_backup,
        },
        dry_run: match args.dry_run {
            Some(b) => b,
            None => config.wrs.dry_run_by_default,
        },
        case_sensitive: match args.ignore_case {
            Some(b) => !b,
            None => config.wrs.case_sensitive,
        },
        show_line_details: match args.verbose {
            Some(b) => b,
            None => config.wrs.show_line_details,
        },
    }
}

/// Whether a file name ends as a pattern says, the asterisks before it aside.
pub open spec fn fits_pattern(name: Option<Seq<char>>, pattern: Seq<char>) -> bool {
    name matches Some(n) && without_start(pattern, '*').is_suffix_of(n)
}

fn fits(name: &Option<String>, pattern: &str) -> (r: bool)
    ensures
        r == fits_pattern(opt_text(*name), pattern@),
{
    match name {
        Some(n) => ends_with(n.as_str(), trim_start_char(pattern, '*').as_str()),
        None => false,
    }
}

/// Whether a path is looked at: it holds none of the excluded directory names, and its file name
/// fits none of the excluded patterns.
pub fn should_include(path: &str, config: &UnifiedConfig, args: &Args) -> (r: bool)
    ensures
        r == ((forall|i: int|
            0 <= i < config.wrs.exclude_dirs@.len() ==> !occurs(
                path@,
                #[trigger] config.wrs.exclude_dirs@[i]@,
            )) && (forall|i: int|
            0 <= i < config.wrs.exclude_patterns@.len() ==> !fits_pattern(
                name_of(path@),
                #[trigger] config.wrs.exclude_patterns@[i]@,
            ))),
{
    let mut i: usize = 0;
    while i < config.wrs.exclude_dirs.len()
        invariant
            i <= config.wrs.exclude_dirs@.len(),
            forall|j: int|
                0 <= j < i ==> !occurs(
                    path@,
                    #[trigger] config.wrs.exclude_dirs@[j]@,
                ),
        decreases config.wrs.exclude_dirs@.len() - i,
    {
        if contains(path, config.wrs.exclude_dirs[i].as_str()) {
            return false;
        }
        i += 1;
    }
    let name: Option<String> = file_name(path);
    let mut i: usize = 0;
    while i < config.wrs.exclude_patterns.len()
        invariant
            i <= config.wrs.exclude_patterns@.len(),
            forall|j: int|
                0 <= j < i ==> !fits_pattern(
                    name_of(path@),
                    #[trigger] config.wrs.exclude_patterns@[j]@,
                ),
        decreases config.wrs.exclude_patterns@.len() - i,
    {
        if fits(&name, config.wrs.exclude_patterns[i].as_str()) {
            return false;
        }
        i += 1;
    }
    true
}

/// Whether a file name without an extension, or that name behind a dot, is `entry`, case aside.
pub open spec fn names_entry(name: Seq<char>, entry: Seq<char>) -> bool {
    let n = lowercase(name);
    let e = lowercase(entry);
    n == e || "."@ + n == e
}

/// Whether strings are replaced in a file: its name fits the pattern that was asked for;
/// without a pattern, its extension in small letters is configured, or it has none and its name
/// is.
pub open spec fn is_processed(
    path: Seq<char>,
    extensions: Seq<Seq<char>>,
    pattern: Option<Seq<char>>,
) -> bool {
    match pattern {
        Some(p) => fits_pattern(name_of(path), p),
        None => match path_extension(path) {
            Some(e) => extensions.contains(lowercase(e)),
            None => {
                let name = match name_of(path) {
                    Some(n) => n,
                    None => Seq::empty(),
                };
                exists|i: int|
                    0 <= i < extensions.len() && names_entry(name, #[trigger] extensions[i])
            },
        },
    }
}

/// Whether strings are replaced in a file.
pub fn should_process_file(path: &str, config: &UnifiedConfig, args: &Args) -> (r: bool)
    ensures
        r == is_processed(
            path@,
            texts(config.wrs.source_extensions@),
            match args.pattern {
                Some(p) => Some(p@),
                None => None,
            },
        ),
{
    let ghost exts = texts(config.wrs.source_extensions@);
    match &args.pattern {
        Some(pattern) => {
            return fits(&file_name(path), pattern.as_str());
        },
        None => {},
    }
    match &extension(path) {
        Some(e) => {
            let l: String = to_lowercase(e.as_str());
            return contains_text(config.wrs.source_extensions.as_slice(), l.as_str());
        },
        None => {},
    }
    let name: String = match file_name(path) {
        Some(n) => n,
        None => String::new(),
    };
    let ghost shown = match name_of(path@) {
        Some(n) => n,
        None => Seq::empty(),
    };
    assert(name@ =~= shown);
    let n: String = to_lowercase(name.as_str());
    let mut dotted: String = ".".to_owned();
    dotted.append(n.as_str());
    let mut i: usize = 0;
    while i < config.wrs.source_extensions.len()
        invariant
            i <= config.wrs.source_extensions@.len(),
            forall|j: int| 0 <= j < i ==> !names_entry(name@, #[trigger] exts[j]),
        decreases config.wrs.source_extensions@.len() - i,
    {
        let e: String = to_lowercase(config.wrs.source_extensions[i].as_str());
        assert(exts[i as int] == config.wrs.source_extensions@[i as int]@);
        if same(n.as_str(), e.as_str()) || same(dotted.as_str(), e.as_str()) {
            assert(names_entry(name@, exts[i as int]));
            return true;
        }
        i += 1;
    }
    false
}

/// Whether a file of `len` bytes is above a limit in megabytes.
pub fn is_too_large(len: u64, max_mb: u64) -> (r: bool)
    ensures
        r == (len > max_mb * 1024 * 1024),
{
    (len as u128) > (max_mb as u128) * 1024 * 1024
}

/// From which positions on `s` is `from`, case aside.
pub open spec fn case_marks(s: Seq<char>, from: Seq<char>) -> Seq<bool> {
    Seq::new(
        s.len(),
        |i: int|
            i + from.len() <= s.len() && lowercase(
                s.subrange(i, i + from.len()),
            ) == lowercase(from),
    )
}

/// `s` from position `i` on, with `width` characters exchanged for `to` at each marked position
/// that has as many behind it, from the left, without overlap.
pub open spec fn marked_replaced(
    s: Seq<char>,
    marks: Seq<bool>,
    width: int,
    to: Seq<char>,
    i: int,
) -> Seq<char>
    decreases s.len() - i,
{
    if i >= s.len() {
        Seq::empty()
    } else if marks[i] && 0 < width <= s.len() - i {
        to + marked_replaced(s, marks, width, to, i + width)
    } else {
        seq![s[i]] + marked_replaced(s, marks, width, to, i + 1)
    }
}

/// `text` with `width` characters exchanged for `to` at each marked position that has as many
/// behind it, from the left, without overlap.
pub fn replace_marked(text: &str, marks: &[bool], width: usize, to: &str) -> (r: String)
    requires
        marks@.len() == text@.len(),
    ensures
        r@ == marked_replaced(text@, marks@, width as int, to@, 0),
{
    let cs: Vec<char> = chars_of(text);
    let mut out: String = String::new();
    let mut i: usize = 0;
    let ghost whole = marked_replaced(cs@, marks@, width as int, to@, 0);
    assert(out@ + whole =~= whole);
    while i < cs.len()
        invariant
            i <= cs@.len(),
            out@ + marked_replaced(cs@, marks@, width as int, to@, i as int) == whole,
        decreases cs@.len() - i,
    {
        let ghost before = out@;
        let ghost rest = marked_replaced(cs@, marks@, width as int, to@, i as int);
        if marks[i] && 0 < width && width <= cs.len() - i {
            out.append(to);
            assert(out@ + marked_replaced(cs@, marks@, width as int, to@, i + width) =~= before
                + rest);
            i += width;
        } else {
            out.push(cs[i]);
            assert(out@ + marked_replaced(cs@, marks@, width as int, to@, i + 1) =~= before
                + rest);
            i += 1;
        }
    }
    assert(out@ + marked_replaced(cs@, marks@, width as int, to@, i as int) =~= out@);
    out
}

/// `text` with `from`, in any case, exchanged for `to`, from the left, without overlap.
pub open spec fn case_replaced(s: Seq<char>, from: Seq<char>, to: Seq<char>) -> Seq<char> {
    marked_replaced(s, case_marks(s, from), from.len() as int, to, 0)
}

/// An ASCII text with `from`, its letters in any case, exchanged for `to`, from the left, without
/// overlap; the other characters stay as they are.
pub open spec fn ascii_replaced(s: Seq<char>, from: Seq<char>, to: Seq<char>) -> Seq<char>
    decreases s.len(),
{
    if s.len() == 0 || from.len() == 0 {
        s
    } else if ascii_lowered(from).is_prefix_of(ascii_lowered(s)) {
        to + ascii_replaced(s.skip(from.len() as int), from, to)
    } else {
        seq![s[0]] + ascii_replaced(s.drop_first(), from, to)
    }
}

/// From which positions on an ASCII text is `from`, case aside.
spec fn ascii_marks(s: Seq<char>, from: Seq<char>) -> Seq<bool> {
    Seq::new(
        s.len(),
        |i: int|
            i + from.len() <= s.len() && ascii_lowered(s.subrange(i, i + from.len()))
                == ascii_lowered(from),
    )
}

proof fn lemma_ascii_replaced(s: Seq<char>, from: Seq<char>, to: Seq<char>, i: int)
    requires
        from.len() > 0,
        0 <= i <= s.len(),
    ensures
        marked_replaced(s, ascii_marks(s, from), from.len() as int, to, i) == ascii_replaced(
            s.skip(i),
            from,
            to,
        ),
    decreases s.len() - i,
{
    let rest = s.skip(i);
    let n = from.len() as int;
    if i < s.len() {
        let prefix = ascii_lowered(from).is_prefix_of(ascii_lowered(rest));
        if i + n <= s.len() {
            assert(ascii_lowered(s.subrange(i, i + n)) =~= ascii_lowered(rest).subrange(0, n));
        }
        assert(ascii_marks(s, from)[i] == prefix);
        if prefix {
            lemma_ascii_replaced(s, from, to, i + n);
            assert(rest.skip(n) =~= s.skip(i + n));
        } else {
            lemma_ascii_replaced(s, from, to, i + 1);
            assert(rest.drop_first() =~= s.skip(i + 1));
        }
    }
}

/// `text` with `from`, in any case, exchanged for `to`. In ASCII texts the case of a letter is all
/// that is set aside.
pub fn replace_ignore_case(text: &str, from: &str, to: &str) -> (r: String)
    requires
        from@.len() > 0,
    ensures
        r@ == case_replaced(text@, from@, to@),
        is_ascii_chars(text@) && is_ascii_chars(from@) ==> r@ == ascii_replaced(
            text@,
            from@,
            to@,
        ),
{
    let cs: Vec<char> = chars_of(text);
    let width: usize = chars_of(from).len();
    let from_lower: String = to_lowercase(from);
    let ghost ascii = is_ascii_chars(text@) && is_ascii_chars(from@);
    let mut marks: Vec<bool> = Vec::new();
    let mut i: usize = 0;
    while i < cs.len()
        invariant
            i <= cs@.len(),
            marks@ == case_marks(text@, from@).take(i as int),
            ascii ==> marks@ == ascii_marks(text@, from@).take(i as int),
        decreases cs@.len() - i,
    {
        let hit: bool = if width <= cs.len() - i {
            let part: String = string_of(&cs, i, i + width);
            let lower: String = to_lowercase(part.as_str());
            same(lower.as_str(), from_lower.as_str())
        } else {
            false
        };
        marks.push(hit);
        assert(marks@ =~= case_marks(text@, from@).take(i + 1));
        assert(ascii ==> marks@ =~= ascii_marks(text@, from@).take(i + 1));
        i += 1;
    }
    assert(marks@ =~= case_marks(text@, from@));
    proof {
        if ascii {
            assert(marks@ =~= ascii_marks(text@, from@));
            lemma_ascii_replaced(text@, from@, to@, 0);
            assert(text@.skip(0) =~= text@);
        }
    }
    replace_marked(text, marks.as_slice(), width, to)
}

/// How often `pattern` stands in `text`, case aside, without overlap.
pub fn count_occurrences_ignore_case(text: &str, pattern: &str) -> (r: usize)
    ensures
        r == capped(
            count_of(
                lowercase(text@),
                lowercase(pattern@),
            ),
        ),
        is_ascii_chars(text@) && is_ascii_chars(pattern@) ==> r == capped(
            count_of(ascii_lowered(text@), ascii_lowered(pattern@)),
        ),
{
    let t: String = to_lowercase(text);
    let p: String = to_lowercase(pattern);
    count(t.as_str(), p.as_str())
}

/// A line after replacement.
pub open spec fn new_line(
    line: Seq<char>,
    old_string: Seq<char>,
    new_string: Seq<char>,
    case_sensitive: bool,
) -> Seq<char> {
    if case_sensitive {
        replaced(line, old_string, new_string)
    } else {
        case_replaced(line, old_string, new_string)
    }
}

/// How many replacements a line counts for: none where it does not change.
pub open spec fn line_hits(
    line: Seq<char>,
    old_string: Seq<char>,
    new_string: Seq<char>,
    case_sensitive: bool,
) -> nat {
    if new_line(line, old_string, new_string, case_sensitive) == line {
        0
    } else if case_sensitive {
        capped(count_of(line, old_string))
    } else {
        capped(
            count_of(
                lowercase(line),
                lowercase(old_string),
            ),
        )
    }
}

fn replace_line(line: &str, old_string: &str, new_string: &str, case_sensitive: bool) -> (r: String)
    requires
        case_sensitive || old_string@.len() > 0,
    ensures
        r@ == new_line(line@, old_string@, new_string@, case_sensitive),
{
    if case_sensitive {
        replace(line, old_string, new_string)
    } else {
        replace_ignore_case(line, old_string, new_string)
    }
}

/// A line that changes, counted from one.
#[derive(Debug, PartialEq, Eq)]
pub struct LineDetail {
    pub line_num: usize,
    pub old_line: String,
    pub new_line: String,
    pub occurrences: usize,
}

/// What replacement does to a file.
#[derive(Debug, PartialEq, Eq)]
pub struct FileChange {
    pub line_count: usize,
    pub replacement_count: usize,
    pub line_details: Vec<LineDetail>,
}

/// What a `LineDetail` holds.
pub struct DetailText {
    pub line_num: nat,
    pub old_line: Seq<char>,
    pub new_line: Seq<char>,
    pub occurrences: nat,
}

impl View for LineDetail {
    type V = DetailText;

    open spec fn view(&self) -> DetailText {
        DetailText {
            line_num: self.line_num as nat,
            old_line: self.old_line@,
            new_line: self.new_line@,
            occurrences: self.occurrences as nat,
        }
    }
}

pub open spec fn detail_texts(v: Seq<LineDetail>) -> Seq<DetailText> {
    v.map_values(|d: LineDetail| d@)
}

/// The replacements in the lines, all together.
pub open spec fn total_hits(
    lines: Seq<Seq<char>>,
    old_string: Seq<char>,
    new_string: Seq<char>,
    case_sensitive: bool,
) -> nat
    decreases lines.len(),
{
    if lines.len() == 0 {
        0
    } else {
        total_hits(lines.drop_last(), old_string, new_string, case_sensitive) + line_hits(
            lines.last(),
            old_string,
            new_string,
            case_sensitive,
        )
    }
}

/// The lines that change.
pub open spec fn changed_lines(
    lines: Seq<Seq<char>>,
    old_string: Seq<char>,
    new_string: Seq<char>,
    case_sensitive: bool,
) -> Seq<DetailText>
    decreases lines.len(),
{
    if lines.len() == 0 {
        Seq::empty()
    } else {
        let line = lines.last();
        let new = new_line(line, old_string, new_string, case_sensitive);
        changed_lines(lines.drop_last(), old_string, new_string, case_sensitive) + if new != line {
            seq![
                DetailText {
                    line_num: lines.len(),
                    old_line: line,
                    new_line: new,
                    occurrences: line_hits(line, old_string, new_string, case_sensitive),
                },
            ]
        } else {
            Seq::empty()
        }
    }
}

/// What replacement does to the lines of a file; none where it counts no replacement.
pub fn process_lines(
    lines: &[String],
    old_string: &str,
    new_string: &str,
    case_sensitive: bool,
    show_line_details: bool,
) -> (r: Option<FileChange>)
    requires
        case_sensitive || old_string@.len() > 0,
    ensures
        ({
            let ls = texts(lines@);
            let total = total_hits(ls, old_string@, new_string@, case_sensitive);
            let changed = changed_lines(ls, old_string@, new_string@, case_sensitive);
            match r {
                Some(c) => total > 0 && c.replacement_count == capped(total)
                    && c.line_count == changed.len() && detail_texts(c.line_details@) == (
                if show_line_details {
                    changed
                } else {
                    Seq::empty()
                }),
                None => total == 0,
            }
        }),
{
    let ghost ls = texts(lines@);
    let mut line_details: Vec<LineDetail> = Vec::new();
    let mut replacement_count: usize = 0;
    let mut line_count: usize = 0;
    let mut i: usize = 0;
    while i < lines.len()
        invariant
            i <= lines@.len(),
            line_count <= i,
            replacement_count == capped(
                total_hits(ls.take(i as int), old_string@, new_string@, case_sensitive),
            ),
            line_count == changed_lines(
                ls.take(i as int),
                old_string@,
                new_string@,
                case_sensitive,
            ).len(),
            detail_texts(line_details@) == if show_line_details {
                changed_lines(ls.take(i as int), old_string@, new_string@, case_sensitive)
            } else {
                Seq::empty()
            },
        decreases lines@.len() - i,
    {
        let ghost now = ls.take(i + 1);
        assert(now.drop_last() =~= ls.take(i as int));
        assert(now.last() == lines@[i as int]@);
        let line: &str = lines[i].as_str();
        let new: String = replace_line(line, old_string, new_string, case_sensitive);
        if !same(new.as_str(), line) {
            let occurrences: usize = if case_sensitive {
                count(line, old_string)
            } else {
                count_occurrences_ignore_case(line, old_string)
            };
            line_count += 1;
            replacement_count = replacement_count.saturating_add(occurrences);
            if show_line_details {
                let ghost before = detail_texts(line_details@);
                let d: LineDetail = LineDetail {
                    line_num: i + 1,
                    old_line: lines[i].clone(),
                    new_line: new,
                    occurrences,
                };
                let ghost held = d@;
                line_details.push(d);
                assert(detail_texts(line_details@) =~= before.push(held));
            }
        }
        i += 1;
    }
    assert(ls.take(i as int) =~= ls);
    if replacement_count > 0 {
        Some(FileChange { line_count, replacement_count, line_details })
    } else {
        None
    }
}

/// The lines after replacement, each with a line feed behind it.
pub open spec fn new_text(
    lines: Seq<Seq<char>>,
    old_string: Seq<char>,
    new_string: Seq<char>,
    case_sensitive: bool,
) -> Seq<char>
    decreases lines.len(),
{
    if lines.len() == 0 {
        Seq::empty()
    } else {
        new_text(lines.drop_last(), old_string, new_string, case_sensitive) + new_line(
            lines.last(),
            old_string,
            new_string,
            case_sensitive,
        ) + "\n"@
    }
}

/// What is written back to a file: its lines after replacement.
pub fn modified_text(
    lines: &[String],
    old_string: &str,
    new_string: &str,
    case_sensitive: bool,
) -> (r: String)
    requires
        case_sensitive || old_string@.len() > 0,
    ensures
        r@ == new_text(texts(lines@), old_string@, new_string@, case_sensitive),
{
    let ghost ls = texts(lines@);
    let mut out: String = String::new();
    let mut i: usize = 0;
    while i < lines.len()
        invariant
            i <= lines@.len(),
            out@ == new_text(ls.take(i as int), old_string@, new_string@, case_sensitive),
        decreases lines@.len() - i,
    {
        assert(ls.take(i + 1).drop_last() =~= ls.take(i as int));
        assert(ls.take(i + 1).last() == lines@[i as int]@);
        out.append(
            replace_line(lines[i].as_str(), old_string, new_string, case_sensitive).as_str(),
        );
        out.append("\n");
        i += 1;
    }
    assert(ls.take(i as int) =~= ls);
    out
}

/// Where the backup of a file lies: `bak` behind its extension, or behind a further dot where it
/// has none.
pub fn bak_path(path: &str) -> (r: String)
    ensures
        r@ == path@ + (if path_extension(path@) is Some {
            ".bak"@
        } else {
            "..bak"@
        }),
{
    let mut out: String = path.to_owned();
    if extension(path).is_some() {
        out.append(".bak");
    } else {
        out.append("..bak");
    }
    out
}

/// What is shown of a line that changes: its number, and the change where it is small.
pub open spec fn detail_shown(d: DetailText) -> Seq<char> {
    "     \x1b[33mLine "@ + dec(d.line_num) + ": "@ + dec(d.occurrences)
        + " replacement(s)\x1b[0m\n"@ + if d.occurrences <= 3 {
        "       \x1b[90m- "@ + trimmed(d.old_line) + "\x1b[0m\n       \x1b[90m+ "@
            + trimmed(d.new_line) + "\x1b[0m\n"@
    } else {
        Seq::empty()
    }
}

pub open spec fn details_shown(ds: Seq<DetailText>) -> Seq<char>
    decreases ds.len(),
{
    if ds.len() == 0 {
        Seq::empty()
    } else {
        details_shown(ds.drop_last()) + detail_shown(ds.last())
    }
}

/// What is shown of a file that changes.
pub open spec fn change_shown(
    path: Seq<char>,
    hits: nat,
    lines: nat,
    ds: Seq<DetailText>,
) -> Seq<char> {
    "\x1b[32m📝 "@ + path + "\x1b[0m\n   \x1b[36m"@ + dec(hits)
        + " replacements in "@ + dec(lines) + " lines\x1b[0m\n"@ + details_shown(ds)
}

fn show_detail(d: &LineDetail) -> (r: String)
    ensures
        r@ == detail_shown(d@),
{
    let mut out: String = "     \x1b[33mLine ".to_owned();
    out.append(decimal(d.line_num as u64).as_str());
    out.append(": ");
    out.append(decimal(d.occurrences as u64).as_str());
    out.append(" replacement(s)\x1b[0m\n");
    let mut change: String = String::new();
    if d.occurrences <= 3 {
        change = "       \x1b[90m- ".to_owned();
        change.append(trim(d.old_line.as_str()).as_str());
        change.append("\x1b[0m\n       \x1b[90m+ ");
        change.append(trim(d.new_line.as_str()).as_str());
        change.append("\x1b[0m\n");
    }
    out.append(change.as_str());
    out
}

/// What is shown of a file that changes.
pub fn show_change(path: &str, change: &FileChange) -> (r: String)
    ensures
        r@ == change_shown(
            path@,
            change.replacement_count as nat,
            change.line_count as nat,
            detail_texts(change.line_details@),
        ),
{
    let mut out: String = "\x1b[32m📝 ".to_owned();
    out.append(path);
    out.append("\x1b[0m\n   \x1b[36m");
    out.append(decimal(change.replacement_count as u64).as_str());
    out.append(" replacements in ");
    out.append(decimal(change.line_count as u64).as_str());
    out.append(" lines\x1b[0m\n");
    let ghost ds = detail_texts(change.line_details@);
    let mut rows: String = String::new();
    let mut i: usize = 0;
    while i < change.line_details.len()
        invariant
            i <= change.line_details@.len(),
            rows@ == details_shown(ds.take(i as int)),
        decreases change.line_details@.len() - i,
    {
        assert(ds.take(i + 1).drop_last() =~= ds.take(i as int));
        assert(ds.take(i + 1).last() == change.line_details@[i as int]@);
        rows.append(show_detail(&change.line_details[i]).as_str());
        i += 1;
    }
    assert(ds.take(i as int) =~= ds);
    out.append(rows.as_str());
    out
}

/// A file and how many replacements it had.
pub type FileCount = (String, usize);

pub open spec fn file_rows(files: Seq<FileCount>, mark: Seq<char>) -> Seq<char>
    decreases files.len(),
{
    if files.len() == 0 {
        Seq::empty()
    } else {
        file_rows(files.drop_last(), mark) + "  "@ + mark + " "@ + files.last().0@ + " ("@
            + dec(files.last().1 as nat) + " replacements)\n"@
    }
}

fn list_files(files: &[FileCount], mark: &str) -> (r: String)
    ensures
        r@ == file_rows(files@, mark@),
{
    let mut out: String = String::new();
    let mut i: usize = 0;
    while i < files.len()
        invariant
            i <= files@.len(),
            out@ == file_rows(files@.take(i as int), mark@),
        decreases files@.len() - i,
    {
        assert(files@.take(i + 1).drop_last() =~= files@.take(i as int));
        out.append("  ");
        out.append(mark);
        out.append(" ");
        out.append(files[i].0.as_str());
        out.append(" (");
        out.append(decimal(files[i].1 as u64).as_str());
        out.append(" replacements)\n");
        i += 1;
    }
    assert(files@.take(i as int) =~= files@);
    out
}

/// The part of the summary that names the files.
pub open spec fn outcome_shown(
    files: Seq<FileCount>,
    dry_run: bool,
    auto_backup: bool,
) -> Seq<char> {
    if dry_run {
        "\n\x1b[33m⚠ DRY RUN - No files were actually modified\x1b[0m\n"@ + if files.len() > 0 {
            "\n\x1b[36mFiles that would be modified:\x1b[0m\n"@ + file_rows(files, "📄"@)
        } else {
            Seq::empty()
        }
    } else if files.len() > 0 {
        "\n\x1b[36mModified files:\x1b[0m\n"@ + file_rows(files, "✓"@) + if auto_backup {
            "\n\x1b[90m💾 Backups created with .bak extension\x1b[0m\n"@
        } else {
            Seq::empty()
        }
    } else {
        "\n\x1b[33m✅ No matches found\x1b[0m\n"@
    }
}

fn show_outcome(files: &[FileCount], dry_run: bool, auto_backup: bool) -> (r: String)
    ensures
        r@ == outcome_shown(files@, dry_run, auto_backup),
{
    if dry_run {
        let mut out: String =
            "\n\x1b[33m⚠ DRY RUN - No files were actually modified\x1b[0m\n".to_owned();
        let mut rows: String = String::new();
        if files.len() > 0 {
            rows = "\n\x1b[36mFiles that would be modified:\x1b[0m\n".to_owned();
            rows.append(list_files(files, "📄").as_str());
        }
        out.append(rows.as_str());
        out
    } else if files.len() > 0 {
        let mut out: String = "\n\x1b[36mModified files:\x1b[0m\n".to_owned();
        out.append(list_files(files, "✓").as_str());
        let mut note: String = String::new();
        if auto_backup {
            note = "\n\x1b[90m💾 Backups created with .bak extension\x1b[0m\n".to_owned();
        }
        out.append(note.as_str());
        out
    } else {
        "\n\x1b[33m✅ No matches found\x1b[0m\n".to_owned()
    }
}

/// The summary of a run.
pub fn print_summary(
    files: &[FileCount],
    total_replacements: usize,
    total_files: usize,
    skipped_files: usize,
    dry_run: bool,
    auto_backup: bool,
) -> (r: String)
    ensures
        r@
            == "\n\x1b[36m━━━━━━━━━━━━━━━━━━━━━━━━━━━━━━━━━━━━━━━━\x1b[0m\n\x1b[1m📊 Summary\x1b[0m\n\x1b[36m━━━━━━━━━━━━━━━━━━━━━━━━━━━━━━━━━━━━━━━━\x1b[0m\n  \x1b[32mFiles modified:\x1b[0m "@
            + dec(total_files as nat) + "\n  \x1b[32mTotal replacements:\x1b[0m "@
            + dec(total_replacements as nat)
            + "\n  \x1b[33mSkipped files:\x1b[0m "@ + dec(skipped_files as nat)
            + "\n"@ + outcome_shown(files@, dry_run, auto_backup) + "\n"@,
{
    let mut out: String =
        "\n\x1b[36m━━━━━━━━━━━━━━━━━━━━━━━━━━━━━━━━━━━━━━━━\x1b[0m\n\x1b[1m📊 Summary\x1b[0m\n\x1b[36m━━━━━━━━━━━━━━━━━━━━━━━━━━━━━━━━━━━━━━━━\x1b[0m\n  \x1b[32mFiles modified:\x1b[0m ".to_owned();
    out.append(decimal(total_files as u64).as_str());
    out.append("\n  \x1b[32mTotal replacements:\x1b[0m ");
    out.append(decimal(total_replacements as u64).as_str());
    out.append("\n  \x1b[33mSkipped files:\x1b[0m ");
    out.append(decimal(skipped_files as u64).as_str());
    out.append("\n");
    out.append(show_outcome(files, dry_run, auto_backup).as_str());
    out.append("\n");
    out
}

/// A text in which the string does not stand is left as it is.
pub proof fn law_nothing_to_replace(s: Seq<char>, from: Seq<char>, to: Seq<char>)
    requires
        from.len() > 0,
        !occurs(s, from),
    ensures
        replaced(s, from, to) == s,
        count_of(s, from) == 0,
    decreases s.len(),
{
    if s.len() > 0 {
        assert(!occurs_at(s, from, 0));
        let rest = s.drop_first();
        assert(!occurs(rest, from)) by {
            if occurs(rest, from) {
                let i = choose|i: int| occurs_at(rest, from, i);
                assert(s.subrange(i + 1, i + 1 + from.len()) =~= rest.subrange(i, i + from.len()));
                assert(occurs_at(s, from, i + 1));
            }
        }
        law_nothing_to_replace(rest, from, to);
        assert(seq![s[0]] + rest =~= s);
    }
}

/// Exchanging a string for itself changes nothing.
pub proof fn law_replace_by_itself(s: Seq<char>, from: Seq<char>)
    requires
        from.len() > 0,
    ensures
        replaced(s, from, from) == s,
    decreases s.len(),
{
    if s.len() > 0 {
        if from.is_prefix_of(s) {
            law_replace_by_itself(s.skip(from.len() as int), from);
            assert(from + s.skip(from.len() as int) =~= s);
        } else {
            law_replace_by_itself(s.drop_first(), from);
            assert(seq![s[0]] + s.drop_first() =~= s);
        }
    }
}

/// Each replacement exchanges as many characters as the string has for as many as the new one
/// has; nothing else is lost or added.
pub proof fn law_replaced_length(s: Seq<char>, from: Seq<char>, to: Seq<char>)
    requires
        from.len() > 0,
    ensures
        replaced(s, from, to).len() + count_of(s, from) * from.len()
            == s.len() + count_of(s, from) * to.len(),
    decreases s.len(),
{
    if s.len() > 0 {
        if from.is_prefix_of(s) {
            let rest = s.skip(from.len() as int);
            law_replaced_length(rest, from, to);
            let c = count_of(rest, from);
            assert((c + 1) * from.len() == c * from.len() + from.len()) by (nonlinear_arith);
            assert((c + 1) * to.len() == c * to.len() + to.len()) by (nonlinear_arith);
        } else {
            law_replaced_length(s.drop_first(), from, to);
        }
    } else {
        assert(0 * from.len() == 0 && 0 * to.len() == 0) by (nonlinear_arith);
    }
}

/// Each replacement without regard to case exchanges as many characters as the string has for as
/// many as the new one has, once for each place that is counted; where none is, the text stays as
/// it is.
pub proof fn law_case_replaced_length(s: Seq<char>, from: Seq<char>, to: Seq<char>)
    requires
        from.len() > 0,
    ensures
        ({
            let n = count_of(ascii_lowered(s), ascii_lowered(from));
            &&& ascii_replaced(s, from, to).len() + n * from.len() == s.len() + n * to.len()
            &&& n == 0 ==> ascii_replaced(s, from, to) == s
        }),
    decreases s.len(),
{
    let l = ascii_lowered(s);
    let f = ascii_lowered(from);
    if s.len() > 0 {
        if f.is_prefix_of(l) {
            let rest = s.skip(from.len() as int);
            law_case_replaced_length(rest, from, to);
            assert(ascii_lowered(rest) =~= l.skip(f.len() as int));
            let c = count_of(ascii_lowered(rest), f);
            assert((c + 1) * from.len() == c * from.len() + from.len()) by (nonlinear_arith);
            assert((c + 1) * to.len() == c * to.len() + to.len()) by (nonlinear_arith);
        } else {
            let rest = s.drop_first();
            law_case_replaced_length(rest, from, to);
            assert(ascii_lowered(rest) =~= l.drop_first());
            assert(seq![s[0]] + rest =~= s);
        }
    } else {
        assert(0 * from.len() == 0 && 0 * to.len() == 0) by (nonlinear_arith);
    }
}

} // verus!
