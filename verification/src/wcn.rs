//! Copying files, or parts of them.

use vstd::prelude::*;
use crate::braces::{indent, indent_of, is_blank, tallied, Tally};
use crate::common::{escaped, regex_escape, TextStats};
use crate::path::{extension, path_extension};
use crate::pattern::{compiles, is_match, is_regex, regex_matches};
use crate::text::{
    contains, dec, decimal, has_char, join, joined, lines, lines_of, number, occurs, opt_text,
    parse_usize, push_text, same, slice_texts, starts_with, texts, trim, trimmed,
};
use crate::unicode::{ascii_lowered, to_ascii_lowercase};

verus! {

/// What the arguments ask for.
#[derive(Debug, PartialEq, Eq)]
pub struct Args {
    pub file: Option<String>,
    pub head_lines: Option<usize>,
    pub tail_lines: Option<usize>,
    pub function: Option<String>,
}

/// What an `Args` holds.
pub struct ArgsText {
    pub file: Option<Seq<char>>,
    pub head_lines: Option<usize>,
    pub tail_lines: Option<usize>,
    pub function: Option<Seq<char>>,
}

impl View for Args {
    type V = ArgsText;

    open spec fn view(&self) -> ArgsText {
        ArgsText {
            file: opt_text(self.file),
            head_lines: self.head_lines,
            tail_lines: self.tail_lines,
            function: opt_text(self.function),
        }
    }
}

/// What is wrong with the arguments.
#[derive(Debug, PartialEq, Eq)]
pub enum ArgError {
    NoHead,
    BadHead,
    NoTail,
    BadTail,
    NoFunction,
    TwoFiles,
    UnknownFlag(String),
}

/// What an `ArgError` holds.
pub enum ArgErrorText {
    NoHead,
    BadHead,
    NoTail,
    BadTail,
    NoFunction,
    TwoFiles,
    UnknownFlag(Seq<char>),
}

impl View for ArgError {
    type V = ArgErrorText;

    open spec fn view(&self) -> ArgErrorText {
        match self {
            ArgError::NoHead => ArgErrorText::NoHead,
            ArgError::BadHead => ArgErrorText::BadHead,
            ArgError::NoTail => ArgErrorText::NoTail,
            ArgError::BadTail => ArgErrorText::BadTail,
            ArgError::NoFunction => ArgErrorText::NoFunction,
            ArgError::TwoFiles => ArgErrorText::TwoFiles,
            ArgError::UnknownFlag(f) => ArgErrorText::UnknownFlag(f@),
        }
    }
}

impl ArgError {
    /// The error in words.
    pub open spec fn words(e: ArgErrorText) -> Seq<char> {
        match e {
            ArgErrorText::NoHead => "-h requires a number argument"@,
            ArgErrorText::BadHead => "invalid number for -h"@,
            ArgErrorText::NoTail => "-t requires a number argument"@,
            ArgErrorText::BadTail => "invalid number for -t"@,
            ArgErrorText::NoFunction => "-f requires a function name argument"@,
            ArgErrorText::TwoFiles => "multiple file arguments provided"@,
            ArgErrorText::UnknownFlag(f) => "unknown flag: "@ + f,
        }
    }

    /// The error in words.
    pub fn message(&self) -> (r: String)
        ensures
            r@ == Self::words(self@),
    {
        match self {
            ArgError::NoHead => "-h requires a number argument".to_owned(),
            ArgError::BadHead => "invalid number for -h".to_owned(),
            ArgError::NoTail => "-t requires a number argument".to_owned(),
            ArgError::BadTail => "invalid number for -t".to_owned(),
            ArgError::NoFunction => "-f requires a function name argument".to_owned(),
            ArgError::TwoFiles => "multiple file arguments provided".to_owned(),
            ArgError::UnknownFlag(f) => {
                let mut out: String = "unknown flag: ".to_owned();
                out.append(f.as_str());
                out
            },
        }
    }
}

/// The number that a text is, if it is one that fits.
pub open spec fn count_in(s: Seq<char>) -> Option<usize> {
    match number(s) {
        Some(n) if n <= usize::MAX => Some(n as usize),
        _ => None,
    }
}

/// What the arguments from `i` on ask for beyond `a`.
pub open spec fn args_from(
    a: ArgsText,
    raw: Seq<Seq<char>>,
    i: int,
) -> Result<ArgsText, ArgErrorText>
    decreases raw.len() - i,
{
    if i >= raw.len() {
        Ok(a)
    } else if raw[i] == "-h"@ || raw[i] == "--head"@ {
        if i + 1 >= raw.len() {
            Err(ArgErrorText::NoHead)
        } else {
            match count_in(raw[i + 1]) {
                Some(n) => args_from(ArgsText { head_lines: Some(n), ..a }, raw, i + 2),
                None => Err(ArgErrorText::BadHead),
            }
        }
    } else if raw[i] == "-t"@ || raw[i] == "--tail"@ {
        if i + 1 >= raw.len() {
            Err(ArgErrorText::NoTail)
        } else {
            match count_in(raw[i + 1]) {
                Some(n) => args_from(ArgsText { tail_lines: Some(n), ..a }, raw, i + 2),
                None => Err(ArgErrorText::BadTail),
            }
        }
    } else if raw[i] == "-f"@ || raw[i] == "--function"@ {
        if i + 1 >= raw.len() {
            Err(ArgErrorText::NoFunction)
        } else {
            args_from(ArgsText { function: Some(raw[i + 1]), ..a }, raw, i + 2)
        }
    } else if !"-"@.is_prefix_of(raw[i]) {
        if a.file is None {
            args_from(ArgsText { file: Some(raw[i]), ..a }, raw, i + 1)
        } else {
            Err(ArgErrorText::TwoFiles)
        }
    } else {
        Err(ArgErrorText::UnknownFlag(raw[i]))
    }
}

/// No arguments.
pub open spec fn no_args() -> ArgsText {
    ArgsText { file: None, head_lines: None, tail_lines: None, function: None }
}

/// What the arguments, those behind the program's name, ask for.
pub fn parse_args(raw: &[String]) -> (r: Result<Args, ArgError>)
    ensures
        match r {
            Ok(a) => args_from(no_args(), texts(raw@), 0) == Ok::<ArgsText, ArgErrorText>(a@),
            Err(e) => args_from(no_args(), texts(raw@), 0) == Err::<ArgsText, ArgErrorText>(e@),
        },
{
    let ghost all = texts(raw@);
    let ghost goal = args_from(no_args(), all, 0);
    let n: usize = raw.len();
    let mut a: Args = Args { file: None, head_lines: None, tail_lines: None, function: None };
    let mut i: usize = 0;
    while i < n
        invariant
            i <= n,
            n == raw@.len(),
            args_from(a@, all, i as int) == goal,
        decreases n - i,
    {
        let arg: &str = raw[i].as_str();
        assert(all[i as int] == arg@);
        let more: bool = n - i > 1;
        if more {
            assert(all[i + 1] == raw@[i + 1]@);
        }
        if same(arg, "-h") || same(arg, "--head") {
            if !more {
                return Err(ArgError::NoHead);
            }
            match parse_usize(raw[i + 1].as_str()) {
                Some(k) => {
                    a.head_lines = Some(k);
                },
                None => {
                    return Err(ArgError::BadHead);
                },
            }
            i += 2;
        } else if same(arg, "-t") || same(arg, "--tail") {
            if !more {
                return Err(ArgError::NoTail);
            }
            match parse_usize(raw[i + 1].as_str()) {
                Some(k) => {
                    a.tail_lines = Some(k);
                },
                None => {
                    return Err(ArgError::BadTail);
                },
            }
            i += 2;
        } else if same(arg, "-f") || same(arg, "--function") {
            if !more {
                return Err(ArgError::NoFunction);
            }
            a.function = Some(raw[i + 1].clone());
            i += 2;
        } else if !starts_with(arg, "-") {
            if a.file.is_some() {
                return Err(ArgError::TwoFiles);
            }
            a.file = Some(raw[i].clone());
            i += 1;
        } else {
            return Err(ArgError::UnknownFlag(raw[i].clone()));
        }
    }
    Ok(a)
}

/// The smaller of two.
pub open spec fn least(a: int, b: int) -> int {
    if a < b {
        a
    } else {
        b
    }
}

/// The first and the last lines of a text, with a note of how many were left out between them;
/// all its lines where none were.
pub open spec fn ends_of(all: Seq<Seq<char>>, head: int, tail: int) -> Seq<char> {
    if head + tail >= all.len() {
        joined(all, "\n"@)
    } else {
        let last = if tail > 0 {
            "\n"@ + joined(all.skip(all.len() - tail), "\n"@)
        } else {
            Seq::empty()
        };
        joined(all.take(head), "\n"@) + "\n... ("@ + dec((all.len() - head - tail) as nat)
            + ") lines omitted ...\n"@ + last
    }
}

/// The lines of a text that are asked for: the first, the last, both or all of them.
pub open spec fn line_part(
    content: Seq<char>,
    head: Option<usize>,
    tail: Option<usize>,
) -> Seq<char> {
    let all = lines(content);
    match (head, tail) {
        (Some(h), Some(t)) => ends_of(all, h as int, t as int),
        (Some(h), None) => joined(all.take(least(h as int, all.len() as int)), "\n"@),
        (None, Some(t)) => joined(all.skip(all.len() - least(t as int, all.len() as int)), "\n"@),
        (None, None) => content,
    }
}

fn min_of(a: usize, b: usize) -> (r: usize)
    ensures
        r == least(a as int, b as int),
        r <= b,
{
    if a < b {
        a
    } else {
        b
    }
}

fn show_ends(all: &[String], head: usize, tail: usize) -> (r: String)
    ensures
        r@ == ends_of(texts(all@), head as int, tail as int),
{
    let n: usize = all.len();
    let ghost ls = texts(all@);
    assert(ls.len() == n);
    if head >= n || tail >= n - head {
        return join(all, "\n");
    }
    let first: Vec<String> = slice_texts(all, 0, head);
    assert(texts(first@) =~= ls.take(head as int));
    let rest: Vec<String> = slice_texts(all, n - tail, n);
    assert(texts(rest@) =~= ls.skip(n - tail));
    let mut last: String = String::new();
    if tail > 0 {
        last = "\n".to_owned();
        last.append(join(&rest, "\n").as_str());
    }
    let mut out: String = join(&first, "\n");
    out.append("\n... (");
    out.append(decimal((n - head - tail) as u64).as_str());
    out.append(") lines omitted ...\n");
    out.append(last.as_str());
    out
}

/// The lines of a text that are asked for.
pub fn take_lines(content: &str, head: Option<usize>, tail: Option<usize>) -> (r: String)
    ensures
        r@ == line_part(content@, head, tail),
{
    let all: Vec<String> = lines_of(content);
    let n: usize = all.len();
    let ghost ls = texts(all@);
    match (head, tail) {
        (Some(h), Some(t)) => show_ends(&all, h, t),
        (Some(h), None) => {
            let part: Vec<String> = slice_texts(&all, 0, min_of(h, n));
            assert(texts(part@) =~= ls.take(least(h as int, n as int)));
            join(&part, "\n")
        },
        (None, Some(t)) => {
            let part: Vec<String> = slice_texts(&all, n - min_of(t, n), n);
            assert(texts(part@) =~= ls.skip(n - least(t as int, n as int)));
            join(&part, "\n")
        },
        (None, None) => content.to_owned(),
    }
}

/// Where head and tail together reach all lines, the whole text is shown, line by line. Where they
/// do not, the first and the last lines are shown as lines, and the note between them counts
/// exactly those that neither has.
pub proof fn law_omitted_lines(all: Seq<Seq<char>>, head: usize, tail: usize)
    ensures
        head + tail >= all.len() ==> ends_of(all, head as int, tail as int) == joined(all, "\n"@),
        head + tail < all.len() ==> {
            let note = "\n... ("@ + dec((all.len() - head - tail) as nat) + ") lines omitted ...\n"@;
            &&& (joined(all.take(head as int), "\n"@) + note).is_prefix_of(
                ends_of(all, head as int, tail as int),
            )
            &&& tail > 0 ==> ("\n"@ + joined(all.skip(all.len() - tail), "\n"@)).is_suffix_of(
                ends_of(all, head as int, tail as int),
            )
        },
{
    if head + tail < all.len() {
        let shown = ends_of(all, head as int, tail as int);
        let first = joined(all.take(head as int), "\n"@) + ("\n... ("@ + dec(
            (all.len() - head - tail) as nat,
        ) + ") lines omitted ...\n"@);
        let last = if tail > 0 {
            "\n"@ + joined(all.skip(all.len() - tail), "\n"@)
        } else {
            Seq::empty()
        };
        assert(shown =~= first + last);
        assert(first =~= shown.subrange(0, first.len() as int));
        assert(last =~= shown.subrange(shown.len() - last.len(), shown.len() as int));
    }
}

/// The patterns by which a function is found in files with an extension, given the pattern of its
/// whole name: the form with which a line begins, and those that may stand anywhere on a line. A
/// file of another language is searched for a line that is the name.
pub open spec fn function_patterns(ext: Seq<char>, name: Seq<char>) -> Seq<Seq<char>> {
    if ext == "rs"@ {
        seq![
            r#"^\s*(?:#\[[^\]]*\]\s*)*(?:pub(?:\s*\([^)]*\))?\s+)?(?:(?:default|const|async|unsafe|extern(?:\s+"[^"]*")?)\s+)*fn\s+"#@
                + name,
            r"pub\s+fn\s+"@ + name,
            r"async\s+fn\s+"@ + name,
        ]
    } else if ext == "py"@ {
        seq![r"^\s*def\s+"@ + name, r"async\s+def\s+"@ + name, r"class\s+"@ + name]
    } else if ext == "js"@ || ext == "ts"@ || ext == "jsx"@ || ext == "tsx"@ {
        seq![
            r"^\s*(?:export\s+)?(?:default\s+)?(?:async\s+)?function\s+"@ + name,
            r"const\s+"@ + name + r"\s*="@,
            r"let\s+"@ + name + r"\s*="@,
            r"class\s+"@ + name,
        ]
    } else if ext == "c"@ || ext == "cc"@ || ext == "cpp"@ || ext == "h"@ || ext == "hpp"@ {
        seq![
            "^"@ + name,
            r"^\s*(?:[\w:<>,*&~]+[\s*&]+)*"@ + name + r"\s*\((?:[^;]*|.*\{.*)$"@,
            r"class\s+"@ + name,
        ]
    } else if ext == "go"@ {
        seq![r"^\s*func\s+"@ + name, r"func\s+\([^)]+\)\s+"@ + name]
    } else {
        seq!["^"@ + name + "$"@]
    }
}

fn put_pattern(v: &mut Vec<String>, before: &str, name: &str)
    ensures
        texts(final(v)@) == texts(old(v)@).push(before@ + name@),
{
    let mut p: String = before.to_owned();
    p.append(name);
    push_text(v, p.as_str());
}

fn put_longer_pattern(v: &mut Vec<String>, before: &str, name: &str, after: &str)
    ensures
        texts(final(v)@) == texts(old(v)@).push(before@ + name@ + after@),
{
    let mut p: String = before.to_owned();
    p.append(name);
    p.append(after);
    push_text(v, p.as_str());
}

fn make_patterns(ext: &str, name: &str) -> (r: Vec<String>)
    ensures
        texts(r@) == function_patterns(ext@, name@),
{
    let mut v: Vec<String> = Vec::new();
    if same(ext, "rs") {
        put_pattern(
            &mut v,
            r#"^\s*(?:#\[[^\]]*\]\s*)*(?:pub(?:\s*\([^)]*\))?\s+)?(?:(?:default|const|async|unsafe|extern(?:\s+"[^"]*")?)\s+)*fn\s+"#,
            name,
        );
        put_pattern(&mut v, r"pub\s+fn\s+", name);
        put_pattern(&mut v, r"async\s+fn\s+", name);
    } else if same(ext, "py") {
        put_pattern(&mut v, r"^\s*def\s+", name);
        put_pattern(&mut v, r"async\s+def\s+", name);
        put_pattern(&mut v, r"class\s+", name);
    } else if same(ext, "js") || same(ext, "ts") || same(ext, "jsx") || same(ext, "tsx") {
        put_pattern(&mut v, r"^\s*(?:export\s+)?(?:default\s+)?(?:async\s+)?function\s+", name);
        put_longer_pattern(&mut v, r"const\s+", name, r"\s*=");
        put_longer_pattern(&mut v, r"let\s+", name, r"\s*=");
        put_pattern(&mut v, r"class\s+", name);
    } else if same(ext, "c") || same(ext, "cc") || same(ext, "cpp") || same(ext, "h") || same(
        ext,
        "hpp",
    ) {
        put_pattern(&mut v, "^", name);
        put_longer_pattern(&mut v, r"^\s*(?:[\w:<>,*&~]+[\s*&]+)*", name, r"\s*\((?:[^;]*|.*\{.*)$");
        put_pattern(&mut v, r"class\s+", name);
    } else if same(ext, "go") {
        put_pattern(&mut v, r"^\s*func\s+", name);
        put_pattern(&mut v, r"func\s+\([^)]+\)\s+", name);
    } else {
        put_longer_pattern(&mut v, "^", name, "$");
    }
    assert(texts(v@) =~= function_patterns(ext@, name@));
    v
}

/// The pattern of a whole name: the name, with the signs that mean something in patterns escaped,
/// and no part of a word behind it.
pub open spec fn name_pattern(name: Seq<char>) -> Seq<char> {
    escaped(name) + r"\b{end-half}"@
}

/// The pattern of the lines on which a function begins: one of the forms in which the language
/// declares it.
pub open spec fn function_pattern(ext: Seq<char>, name: Seq<char>) -> Seq<char> {
    "(?m)"@ + joined(function_patterns(ext, name_pattern(name)), "|"@)
}

/// The pattern of the lines on which a function begins.
pub fn make_function_pattern(ext: &str, name: &str) -> (r: String)
    ensures
        r@ == function_pattern(ext@, name@),
{
    let mut whole: String = regex_escape(name);
    whole.append(r"\b{end-half}");
    let patterns: Vec<String> = make_patterns(ext, whole.as_str());
    let mut out: String = "(?m)".to_owned();
    out.append(join(&patterns, "|").as_str());
    out
}

/// The last line of the function that begins on line `start`, where the lines from there to `i`
/// have left `state` open: in Python the last one before a line that is indented no deeper, else
/// the one that closes its first block, or one that ends in a declaration before any block.
pub open spec fn end_from(
    ls: Seq<Seq<char>>,
    start: int,
    i: int,
    state: (nat, nat, bool),
    python: bool,
) -> int
    decreases ls.len() - i,
{
    if i >= ls.len() {
        ls.len() - 1
    } else {
        let next = tallied(ls[i], state.0, state.1, state.2);
        if python {
            if i > start && trimmed(ls[i]).len() > 0 && indent(ls[i]) <= indent(ls[start]) {
                i - 1
            } else {
                end_from(ls, start, i + 1, next, python)
            }
        } else if next == (0nat, 0nat, true) {
            i
        } else if !next.2 && i > start && ls[i].contains(';') && !ls[i].contains('{') {
            i
        } else {
            end_from(ls, start, i + 1, next, python)
        }
    }
}

/// The last line of the function that begins on line `start`: the last line of the text where it
/// has no such line.
pub fn find_function_end(ls: &[String], start: usize, ext: &str) -> (r: usize)
    requires
        ls@.len() > 0,
    ensures
        r == end_from(texts(ls@), start as int, start as int, (0nat, 0nat, false), ext@ == "py"@),
        r < ls@.len(),
        start < ls@.len() ==> start <= r,
{
    let ghost all = texts(ls@);
    let python: bool = same(ext, "py");
    let n: usize = ls.len();
    if start >= n {
        return n - 1;
    }
    let mut tally: Tally = Tally::new();
    let mut i: usize = start;
    while i < n
        invariant
            start <= i <= n,
            n == ls@.len(),
            tally.wf(),
            tally.seen() == i - start,
            end_from(all, start as int, i as int, tally.state(), python) == end_from(
                all,
                start as int,
                start as int,
                (0nat, 0nat, false),
                python,
            ),
        decreases n - i,
    {
        let line: &str = ls[i].as_str();
        assert(all[i as int] == line@);
        assert(all[start as int] == ls@[start as int]@);
        tally.add_line(line);
        if python {
            if i > start && !is_blank(line) && indent_of(line) <= indent_of(ls[start].as_str()) {
                return i - 1;
            }
        } else {
            if tally.is_level() {
                return i;
            }
            if !tally.has_opened() && i > start && has_char(line, ';') && !has_char(line, '{') {
                return i;
            }
        }
        i += 1;
    }
    n - 1
}

/// Whether a line was hit, for each line of a text.
pub open spec fn hits(pattern: Seq<char>, ls: Seq<Seq<char>>) -> Seq<bool> {
    ls.map_values(|l: Seq<char>| regex_matches(pattern, l))
}

/// The first place from `i` on that is true.
pub open spec fn first_true(v: Seq<bool>, i: int) -> Option<int>
    decreases v.len() - i,
{
    if i >= v.len() {
        None
    } else if v[i] {
        Some(i)
    } else {
        first_true(v, i + 1)
    }
}

/// The function that begins on the first line that was hit.
pub open spec fn hit_function(
    ls: Seq<Seq<char>>,
    hit: Seq<bool>,
    python: bool,
) -> Option<Seq<char>> {
    match first_true(hit, 0) {
        Some(start) => Some(
            joined(
                ls.subrange(start, end_from(ls, start, start, (0nat, 0nat, false), python) + 1),
                "\n"@,
            ),
        ),
        None => None,
    }
}

/// The function that begins on the first line that was hit, given which lines were.
pub fn cut_function(ls: &[String], hit: &[bool], ext: &str) -> (r: Option<String>)
    requires
        hit@.len() == ls@.len(),
    ensures
        opt_text(r) == hit_function(texts(ls@), hit@, ext@ == "py"@),
{
    let n: usize = hit.len();
    let mut i: usize = 0;
    while i < n
        invariant
            i <= n,
            n == hit@.len(),
            first_true(hit@, i as int) == first_true(hit@, 0),
        decreases n - i,
    {
        if hit[i] {
            let end: usize = find_function_end(ls, i, ext);
            let part: Vec<String> = slice_texts(ls, i, end + 1);
            assert(texts(part@) =~= texts(ls@).subrange(i as int, end + 1));
            return Some(join(&part, "\n"));
        }
        i += 1;
    }
    None
}

/// Why a function cannot be copied.
#[derive(Debug, Clone, Copy, PartialEq, Eq, Structural)]
pub enum FunctionError {
    BadPattern,
    NotFound,
}

/// The function of this name in a text, or why there is none, given whether its pattern is one and
/// which lines it matches.
pub open spec fn extracted(
    ok: bool,
    ls: Seq<Seq<char>>,
    hit: Seq<bool>,
    python: bool,
) -> Result<Seq<char>, FunctionError> {
    if !ok {
        Err(FunctionError::BadPattern)
    } else {
        match hit_function(ls, hit, python) {
            Some(t) => Ok(t),
            None => Err(FunctionError::NotFound),
        }
    }
}

/// The function of this name in a text, from the first line that its pattern matches on, or why
/// there is none.
pub fn extract_function(
    content: &str,
    func_name: &str,
    ext: &str,
) -> (r: Result<String, FunctionError>)
    ensures
        ({
            let pattern = function_pattern(ext@, func_name@);
            let all = lines(content@);
            match r {
                Ok(t) => extracted(is_regex(pattern), all, hits(pattern, all), ext@ == "py"@) == Ok::<
                    Seq<char>,
                    FunctionError,
                >(t@),
                Err(e) => extracted(is_regex(pattern), all, hits(pattern, all), ext@ == "py"@)
                    == Err::<Seq<char>, FunctionError>(e),
            }
        }),
{
    let pattern: String = make_function_pattern(ext, func_name);
    if !compiles(pattern.as_str()) {
        return Err(FunctionError::BadPattern);
    }
    let ls: Vec<String> = lines_of(content);
    let ghost all = hits(pattern@, texts(ls@));
    let mut hit: Vec<bool> = Vec::new();
    let mut i: usize = 0;
    while i < ls.len()
        invariant
            i <= ls@.len(),
            hit@ == all.take(i as int),
        decreases ls@.len() - i,
    {
        let h: bool = is_match(pattern.as_str(), ls[i].as_str());
        hit.push(h);
        assert(hit@ =~= all.take(i + 1));
        i += 1;
    }
    assert(all.take(i as int) =~= all);
    match cut_function(&ls, &hit, ext) {
        Some(t) => Ok(t),
        None => Err(FunctionError::NotFound),
    }
}

/// The extension of a path in small letters.
pub open spec fn small_extension(path: Seq<char>) -> Seq<char> {
    match path_extension(path) {
        Some(e) => ascii_lowered(e),
        None => Seq::empty(),
    }
}

/// The extension of a path in small letters.
pub fn lower_extension(path: &str) -> (r: String)
    ensures
        r@ == small_extension(path@),
{
    match extension(path) {
        Some(e) => to_ascii_lowercase(e.as_str()),
        None => String::new(),
    }
}

/// What is copied of a file: the function that is asked for, or else the lines that are.
pub fn extract_content(content: &str, args: &Args, path: &str) -> (r: Result<String, FunctionError>)
    ensures
        match args.function {
            Some(f) => {
                let ext = small_extension(path@);
                let pattern = function_pattern(ext, f@);
                let all = lines(content@);
                match r {
                    Ok(t) => extracted(is_regex(pattern), all, hits(pattern, all), ext == "py"@)
                        == Ok::<Seq<char>, FunctionError>(t@),
                    Err(e) => extracted(is_regex(pattern), all, hits(pattern, all), ext == "py"@)
                        == Err::<Seq<char>, FunctionError>(e),
                }
            },
            None => r matches Ok(t) && t@ == line_part(
                content@,
                args.head_lines,
                args.tail_lines,
            ),
        },
{
    match &args.function {
        Some(f) => {
            let ext: String = lower_extension(path);
            extract_function(content, f.as_str(), ext.as_str())
        },
        None => Ok(take_lines(content, args.head_lines, args.tail_lines)),
    }
}

/// Whether one of the first two lines of a text names a file.
pub open spec fn names_file(content: Seq<char>, filename: Seq<char>) -> bool {
    let all = lines(content);
    (all.len() > 0 && occurs(all[0], filename)) || (all.len() > 1 && occurs(all[1], filename))
}

/// Whether one of the first two lines of a text names a file.
pub fn header_present(content: &str, filename: &str) -> (r: bool)
    ensures
        r == names_file(content@, filename@),
{
    let all: Vec<String> = lines_of(content);
    let ghost ls = texts(all@);
    assert(all@.len() > 0 ==> ls[0] == all@[0]@);
    assert(all@.len() > 1 ==> ls[1] == all@[1]@);
    (all.len() > 0 && contains(all[0].as_str(), filename)) || (all.len() > 1 && contains(
        all[1].as_str(),
        filename,
    ))
}

/// What is put on the clipboard: the text under a comment that names its file and, where there is
/// one, the time, unless the text names the file itself.
pub open spec fn payload(
    content: Seq<char>,
    filename: Seq<char>,
    prefix: Seq<char>,
    time: Option<Seq<char>>,
) -> Seq<char> {
    if names_file(content, filename) {
        content
    } else {
        prefix + " "@ + filename + (match time {
            Some(t) => " # "@ + t,
            None => Seq::empty(),
        }) + "\n"@ + content
    }
}

/// What is put on the clipboard.
pub fn make_payload(
    content: &str,
    filename: &str,
    prefix: &str,
    time: &Option<String>,
) -> (r: String)
    ensures
        r@ == payload(content@, filename@, prefix@, opt_text(*time)),
{
    if header_present(content, filename) {
        return content.to_owned();
    }
    let mut stamp: String = String::new();
    match time {
        Some(t) => {
            stamp = " # ".to_owned();
            stamp.append(t.as_str());
        },
        None => {},
    }
    let mut out: String = prefix.to_owned();
    out.append(" ");
    out.append(filename);
    out.append(stamp.as_str());
    out.append("\n");
    out.append(content);
    out
}

/// The flags that were given, as they are shown.
pub open spec fn flag_texts(a: ArgsText) -> Seq<Seq<char>> {
    (match a.head_lines {
        Some(n) => seq!["-h "@ + dec(n as nat)],
        None => Seq::empty(),
    }) + (match a.tail_lines {
        Some(n) => seq!["-t "@ + dec(n as nat)],
        None => Seq::empty(),
    }) + (match a.function {
        Some(f) => seq!["-f "@ + f],
        None => Seq::empty(),
    })
}

fn show_flags(a: &Args) -> (r: Vec<String>)
    ensures
        texts(r@) == flag_texts(a@),
{
    let mut out: Vec<String> = Vec::new();
    match a.head_lines {
        Some(n) => {
            let mut t: String = "-h ".to_owned();
            t.append(decimal(n as u64).as_str());
            push_text(&mut out, t.as_str());
        },
        None => {},
    }
    match a.tail_lines {
        Some(n) => {
            let mut t: String = "-t ".to_owned();
            t.append(decimal(n as u64).as_str());
            push_text(&mut out, t.as_str());
        },
        None => {},
    }
    match &a.function {
        Some(f) => {
            let mut t: String = "-f ".to_owned();
            t.append(f.as_str());
            push_text(&mut out, t.as_str());
        },
        None => {},
    }
    assert(texts(out@) =~= flag_texts(a@));
    out
}

/// What is said of a file that was copied.
pub open spec fn stats_line(file: Seq<char>, s: TextStats, a: ArgsText) -> Seq<char> {
    let flags = if flag_texts(a).len() == 0 {
        Seq::empty()
    } else {
        " ["@ + joined(flag_texts(a), ", "@) + "]"@
    };
    "\x1b[36mfile\x1b[0m "@ + file + flags + "  \x1b[33mlines\x1b[0m "@ + dec(s.lines as nat)
        + "  \x1b[33mwords\x1b[0m "@ + dec(s.words as nat) + "  \x1b[33mchars\x1b[0m "@ + dec(
        s.chars as nat,
    ) + "  \x1b[33mbytes\x1b[0m "@ + dec(s.bytes as nat) + "\n"@
}

/// What is said of a file that was copied.
pub fn print_stats(file: &str, stats: &TextStats, args: &Args) -> (r: String)
    ensures
        r@ == stats_line(file@, *stats, args@),
{
    let flags: Vec<String> = show_flags(args);
    let mut part: String = String::new();
    if flags.len() > 0 {
        part = " [".to_owned();
        part.append(join(&flags, ", ").as_str());
        part.append("]");
    }
    assert(texts(flags@).len() == flags@.len());
    let mut out: String = "\x1b[36mfile\x1b[0m ".to_owned();
    out.append(file);
    out.append(part.as_str());
    out.append("  \x1b[33mlines\x1b[0m ");
    out.append(decimal(stats.lines as u64).as_str());
    out.append("  \x1b[33mwords\x1b[0m ");
    out.append(decimal(stats.words as u64).as_str());
    out.append("  \x1b[33mchars\x1b[0m ");
    out.append(decimal(stats.chars as u64).as_str());
    out.append("  \x1b[33mbytes\x1b[0m ");
    out.append(decimal(stats.bytes as u64).as_str());
    out.append("\n");
    out
}

/// The file that was chosen: what the chooser printed, unless it failed or printed nothing.
pub fn chosen_file(success: bool, printed: &str) -> (r: Option<String>)
    ensures
        opt_text(r) == if success && trimmed(printed@).len() > 0 {
            Some(trimmed(printed@))
        } else {
            None
        },
{
    let selected: String = trim(printed);
    if success && !selected.as_str().is_empty() {
        Some(selected)
    } else {
        None
    }
}

} // verus!
