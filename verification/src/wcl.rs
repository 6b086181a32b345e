//! Analysing the files of a directory.

use vstd::prelude::*;
use crate::braces::{indent, indent_of, is_blank, tallied, Tally};
use crate::common::{calc_stats, word_count, TextStats};
use crate::config::WclConfig;
use crate::ordered::TextMap;
use crate::path::{extension, file_name, name_of, path_extension};
use crate::text::{
    before_char, capped, chars_of, contains, contains_text, count, count_of, ends_with, find_at,
    find_from, has_char, index_of, join, joined, last_word, lines, lines_of, newlines, occurs, same,
    slice_texts, starts_with, string_of, take_until_any, texts, trim, trimmed, until_any, words,
};
use crate::unicode::{alphanumeric, is_alphanumeric, lowercase, to_lowercase};
use crate::wff::{second_piece, take_second_piece};

verus! {

/// A function of a file: its size and its lines, counted from one.
#[derive(Debug, PartialEq, Eq)]
pub struct FunctionInfo {
    pub name: String,
    pub lines: usize,
    pub words: usize,
    pub chars: usize,
    pub start_line: usize,
    pub end_line: usize,
}

/// A type of a file: its size, its lines and its methods.
#[derive(Debug, PartialEq, Eq)]
pub struct ClassInfo {
    pub name: String,
    pub lines: usize,
    pub words: usize,
    pub chars: usize,
    pub start_line: usize,
    pub end_line: usize,
    pub methods: Vec<FunctionInfo>,
}

/// What a `FunctionInfo` holds.
pub struct FunctionText {
    pub name: Seq<char>,
    pub lines: nat,
    pub words: nat,
    pub chars: nat,
    pub start_line: int,
    pub end_line: int,
}

impl View for FunctionInfo {
    type V = FunctionText;

    open spec fn view(&self) -> FunctionText {
        FunctionText {
            name: self.name@,
            lines: self.lines as nat,
            words: self.words as nat,
            chars: self.chars as nat,
            start_line: self.start_line as int,
            end_line: self.end_line as int,
        }
    }
}

pub open spec fn function_texts(v: Seq<FunctionInfo>) -> Seq<FunctionText> {
    v.map_values(|f: FunctionInfo| f@)
}

/// What a `ClassInfo` holds.
pub struct ClassText {
    pub name: Seq<char>,
    pub lines: nat,
    pub words: nat,
    pub chars: nat,
    pub start_line: int,
    pub end_line: int,
    pub methods: Seq<FunctionText>,
}

impl View for ClassInfo {
    type V = ClassText;

    open spec fn view(&self) -> ClassText {
        ClassText {
            name: self.name@,
            lines: self.lines as nat,
            words: self.words as nat,
            chars: self.chars as nat,
            start_line: self.start_line as int,
            end_line: self.end_line as int,
            methods: function_texts(self.methods@),
        }
    }
}

pub open spec fn class_texts(v: Seq<ClassInfo>) -> Seq<ClassText> {
    v.map_values(|c: ClassInfo| c@)
}

/// The families of languages that are told apart.
#[derive(Clone, Copy, Debug, PartialEq, Eq, Structural)]
pub enum Lang {
    Rust,
    Python,
    Script,
    C,
    Go,
    Other,
}

/// The language of files with this extension.
pub open spec fn lang_of(ext: Seq<char>) -> Lang {
    if ext == "rs"@ {
        Lang::Rust
    } else if ext == "py"@ {
        Lang::Python
    } else if ext == "js"@ || ext == "ts"@ || ext == "jsx"@ || ext == "tsx"@ {
        Lang::Script
    } else if ext == "c"@ || ext == "cc"@ || ext == "cpp"@ || ext == "h"@ || ext == "hpp"@ {
        Lang::C
    } else if ext == "go"@ {
        Lang::Go
    } else {
        Lang::Other
    }
}

/// The language of files with this extension.
pub fn language(ext: &str) -> (r: Lang)
    ensures
        r == lang_of(ext@),
{
    if same(ext, "rs") {
        Lang::Rust
    } else if same(ext, "py") {
        Lang::Python
    } else if same(ext, "js") || same(ext, "ts") || same(ext, "jsx") || same(ext, "tsx") {
        Lang::Script
    } else if same(ext, "c") || same(ext, "cc") || same(ext, "cpp") || same(ext, "h") || same(
        ext,
        "hpp",
    ) {
        Lang::C
    } else if same(ext, "go") {
        Lang::Go
    } else {
        Lang::Other
    }
}

/// The last line, counted from zero, of the body that begins on line `start`, searched from line
/// `i` up to `stop`. In Python the body ends before the first line that is not indented deeper;
/// elsewhere where all brackets are closed again. Line `start` where no end is found.
pub open spec fn body_end(
    ls: Seq<Seq<char>>,
    start: int,
    i: int,
    stop: int,
    state: (nat, nat, bool),
    python: bool,
) -> int
    decreases stop - i,
{
    if i >= stop {
        start
    } else {
        let after = tallied(ls[i], state.0, state.1, state.2);
        if python {
            if i > start && indent(ls[i]) <= indent(ls[start]) && trimmed(ls[i]).len() > 0 {
                i - 1
            } else {
                body_end(ls, start, i + 1, stop, after, python)
            }
        } else if after == (0nat, 0nat, true) {
            i
        } else {
            body_end(ls, start, i + 1, stop, after, python)
        }
    }
}

/// How far the body that begins on line `start` is searched: five hundred lines.
pub open spec fn body_limit(ls: Seq<Seq<char>>, start: int) -> int {
    if start + 500 < ls.len() {
        start + 500
    } else {
        ls.len() as int
    }
}

/// The last line of the body that begins on line `start`, both counted from zero.
pub open spec fn body_last(ls: Seq<Seq<char>>, start: int, ext: Seq<char>) -> int {
    body_end(ls, start, start, body_limit(ls, start), (0, 0, false), ext == "py"@)
}

/// The last line of the body that begins on line `start`, both counted from zero: `start` itself
/// where the text has no such line.
pub fn extract_function_body(ls: &[String], start: usize, ext: &str) -> (r: usize)
    ensures
        r == body_last(texts(ls@), start as int, ext@),
        start < ls@.len() ==> start <= r < ls@.len(),
{
    let ghost all = texts(ls@);
    let python: bool = same(ext, "py");
    let n: usize = ls.len();
    if start >= n {
        return start;
    }
    let stop: usize = if n - start > 500 {
        start + 500
    } else {
        n
    };
    let start_indent: usize = indent_of(ls[start].as_str());
    let mut tally: Tally = Tally::new();
    let mut i: usize = start;
    while i < stop
        invariant
            start <= i <= stop <= n == ls@.len(),
            tally.wf(),
            tally.seen() == i - start,
            start_indent == indent(all[start as int]),
            body_end(all, start as int, i as int, stop as int, tally.state(), python) == body_last(
                all,
                start as int,
                ext@,
            ),
        decreases stop - i,
    {
        assert(all[i as int] == ls@[i as int]@);
        let line: &str = ls[i].as_str();
        tally.add_line(line);
        if python {
            if i > start && indent_of(line) <= start_indent && !is_blank(line) {
                return i - 1;
            }
        } else if tally.is_level() {
            return i;
        }
        i += 1;
    }
    start
}

/// Whether `s` is an identifier: not empty, all letters, digits and underscores.
pub open spec fn is_identifier(s: Seq<char>) -> bool {
    s.len() > 0 && forall|i: int|
        0 <= i < s.len() ==> alphanumeric(#[trigger] s[i]) || s[i] == '_'
}

fn check_identifier(s: String) -> (r: Option<String>)
    ensures
        (match r {
            Some(n) => Some(n@),
            None => None,
        }) == if is_identifier(s@) {
            Some(s@)
        } else {
            None
        },
{
    let cs: Vec<char> = chars_of(s.as_str());
    if cs.len() == 0 {
        return None;
    }
    let mut i: usize = 0;
    while i < cs.len()
        invariant
            i <= cs@.len(),
            forall|j: int| 0 <= j < i ==> alphanumeric(#[trigger] cs@[j]) || cs@[j] == '_',
        decreases cs@.len() - i,
    {
        if !(is_alphanumeric(cs[i]) || cs[i] == '_') {
            assert(!(alphanumeric(cs@[i as int]) || cs@[i as int] == '_'));
            return None;
        }
        i += 1;
    }
    Some(s)
}

pub open spec fn identifier(s: Seq<char>) -> Option<Seq<char>> {
    if is_identifier(s) {
        Some(s)
    } else {
        None
    }
}

/// The name behind the first `keyword` of a line, up to the first of `stops`.
pub open spec fn name_after(line: Seq<char>, keyword: Seq<char>, stops: Seq<char>) -> Option<
    Seq<char>,
> {
    if find_from(line, keyword, 0) is Some {
        identifier(trimmed(until_any(second_piece(line, keyword), stops)))
    } else {
        None
    }
}

fn take_name_after(line: &str, keyword: &str, stops: &str) -> (r: Option<String>)
    ensures
        (match r {
            Some(n) => Some(n@),
            None => None,
        }) == name_after(line@, keyword@, stops@),
{
    let cs: Vec<char> = chars_of(line);
    let ks: Vec<char> = chars_of(keyword);
    match find_at(&cs, &ks, 0) {
        Some(_) => {
            let piece: String = take_second_piece(line, keyword);
            check_identifier(trim(take_until_any(piece.as_str(), stops).as_str()))
        },
        None => None,
    }
}

/// The name of the function that `keyword` declares on a line.
pub fn extract_function_name(line: &str, keyword: &str) -> (r: Option<String>)
    ensures
        (match r {
            Some(n) => Some(n@),
            None => None,
        }) == name_after(line@, keyword@, "( <{"@),
{
    take_name_after(line, keyword, "( <{")
}

/// The name of the type that `keyword` declares on a line.
pub fn extract_class_name(line: &str, keyword: &str) -> (r: Option<String>)
    ensures
        (match r {
            Some(n) => Some(n@),
            None => None,
        }) == name_after(line@, keyword@, " {(:"@),
{
    take_name_after(line, keyword, " {(:")
}

/// What stands in `s` before the first `sep`; all of it where there is none.
pub open spec fn first_piece(s: Seq<char>, sep: Seq<char>) -> Seq<char> {
    match find_from(s, sep, 0) {
        Some(a) => s.take(a),
        None => s,
    }
}

fn take_first_piece(s: &str, sep: &str) -> (r: String)
    ensures
        r@ == first_piece(s@, sep@),
{
    let cs: Vec<char> = chars_of(s);
    let ps: Vec<char> = chars_of(sep);
    match find_at(&cs, &ps, 0) {
        Some(a) => string_of(&cs, 0, a),
        None => s.to_owned(),
    }
}

/// The name of the arrow function that a line declares as a constant.
pub open spec fn arrow_name(line: Seq<char>) -> Option<Seq<char>> {
    let before = trimmed(first_piece(line, "=>"@));
    if find_from(line, "=>"@, 0) is Some && find_from(before, "const "@, 0) is Some {
        identifier(trimmed(until_any(second_piece(before, "const "@), "="@)))
    } else {
        None
    }
}

/// The name of the arrow function that a line declares as a constant.
pub fn extract_arrow_function_name(line: &str) -> (r: Option<String>)
    ensures
        (match r {
            Some(n) => Some(n@),
            None => None,
        }) == arrow_name(line@),
{
    let cs: Vec<char> = chars_of(line);
    let arrow: Vec<char> = chars_of("=>");
    match find_at(&cs, &arrow, 0) {
        Some(_) => {
            let before: String = trim(take_first_piece(line, "=>").as_str());
            take_name_after(before.as_str(), "const ", "=")
        },
        None => None,
    }
}

/// The name of the function that a line of C declares: the word before the parenthesis.
pub open spec fn c_name(line: Seq<char>) -> Option<Seq<char>> {
    let ws = words(line.take(index_of(line, '(')));
    if ws.len() > 0 {
        identifier(ws.last())
    } else {
        None
    }
}

/// The name of the function that a line of C declares.
pub fn extract_c_function_name(line: &str) -> (r: Option<String>)
    ensures
        (match r {
            Some(n) => Some(n@),
            None => None,
        }) == c_name(line@),
{
    match last_word(before_char(line, '(').as_str()) {
        Some(w) => check_identifier(w),
        None => None,
    }
}

/// The name of the function that a trimmed line declares.
pub open spec fn declared_function(t: Seq<char>, lang: Lang) -> Option<Seq<char>> {
    match lang {
        Lang::Rust => if occurs(t, "fn "@) && !occurs(t, "//"@) {
            name_after(t, "fn "@, "( <{"@)
        } else {
            None
        },
        Lang::Python => if occurs(t, "def "@) && !"#"@.is_prefix_of(t) {
            name_after(t, "def "@, "( <{"@)
        } else {
            None
        },
        Lang::Script => if occurs(t, "function "@) && !occurs(t, "//"@) {
            name_after(t, "function "@, "( <{"@)
        } else if occurs(t, "=>"@) && occurs(t, "const "@) {
            arrow_name(t)
        } else {
            None
        },
        Lang::C => if t.contains('(') && t.contains(')') && !"//"@.is_prefix_of(t)
            && !"/*"@.is_prefix_of(t) {
            c_name(t)
        } else {
            None
        },
        Lang::Go => if occurs(t, "func "@) {
            name_after(t, "func "@, "( <{"@)
        } else {
            None
        },
        Lang::Other => None,
    }
}

fn find_declared_function(t: &str, lang: Lang) -> (r: Option<String>)
    ensures
        (match r {
            Some(n) => Some(n@),
            None => None,
        }) == declared_function(t@, lang),
{
    match lang {
        Lang::Rust => if contains(t, "fn ") && !contains(t, "//") {
            extract_function_name(t, "fn ")
        } else {
            None
        },
        Lang::Python => if contains(t, "def ") && !starts_with(t, "#") {
            extract_function_name(t, "def ")
        } else {
            None
        },
        Lang::Script => if contains(t, "function ") && !contains(t, "//") {
            extract_function_name(t, "function ")
        } else if contains(t, "=>") && contains(t, "const ") {
            extract_arrow_function_name(t)
        } else {
            None
        },
        Lang::C => if has_char(t, '(') && has_char(t, ')') && !starts_with(t, "//") && !starts_with(
            t,
            "/*",
        ) {
            extract_c_function_name(t)
        } else {
            None
        },
        Lang::Go => if contains(t, "func ") {
            extract_function_name(t, "func ")
        } else {
            None
        },
        Lang::Other => None,
    }
}

/// Lines `from` to `to` of a text, as one.
pub open spec fn stretch(ls: Seq<Seq<char>>, from: int, to: int) -> Seq<char> {
    joined(ls.subrange(from, to + 1), "\n"@)
}

/// The function called `name` that begins on line `i`.
pub open spec fn function_on(
    ls: Seq<Seq<char>>,
    i: int,
    ext: Seq<char>,
    name: Seq<char>,
) -> FunctionText {
    let end = body_last(ls, i, ext);
    FunctionText {
        name,
        lines: newlines(stretch(ls, i, end)),
        words: word_count(stretch(ls, i, end)),
        chars: stretch(ls, i, end).len(),
        start_line: i + 1,
        end_line: end + 1,
    }
}

/// Whether the function on line `i` is listed: it has more than one line, and as many as asked
/// for.
pub open spec fn keeps_function(
    ls: Seq<Seq<char>>,
    i: int,
    ext: Seq<char>,
    min_lines: nat,
) -> bool {
    body_last(ls, i, ext) > i && newlines(stretch(ls, i, body_last(ls, i, ext))) >= min_lines
}

/// The functions `found` so far and those from line `i` up to `stop`, until there are `max`.
pub open spec fn functions_from(
    ls: Seq<Seq<char>>,
    ext: Seq<char>,
    min_lines: nat,
    max: nat,
    i: int,
    stop: int,
    found: Seq<FunctionText>,
) -> Seq<FunctionText>
    decreases stop - i,
{
    if i >= stop {
        found
    } else {
        match declared_function(trimmed(ls[i]), lang_of(ext)) {
            Some(name) => {
                let now = if keeps_function(ls, i, ext, min_lines) {
                    found.push(function_on(ls, i, ext, name))
                } else {
                    found
                };
                if now.len() >= max {
                    now
                } else {
                    functions_from(ls, ext, min_lines, max, i + 1, stop, now)
                }
            },
            None => functions_from(ls, ext, min_lines, max, i + 1, stop, found),
        }
    }
}

/// How many lines of a text are searched for declarations: two thousand.
pub open spec fn search_limit(ls: Seq<Seq<char>>) -> int {
    if ls.len() > 2000 {
        2000
    } else {
        ls.len() as int
    }
}

/// The functions of a text.
pub open spec fn functions_in(content: Seq<char>, ext: Seq<char>, min_lines: nat, max: nat) -> Seq<
    FunctionText,
> {
    let ls = lines(content);
    functions_from(ls, ext, min_lines, max, 0, search_limit(ls), Seq::empty())
}

/// The functions of a source text.
pub fn detect_functions_in_file(content: &str, ext: &str, config: &WclConfig) -> (r: Vec<
    FunctionInfo,
>)
    ensures
        function_texts(r@) == functions_in(
            content@,
            ext@,
            config.min_function_lines as nat,
            config.max_functions_per_file as nat,
        ),
{
    let ls: Vec<String> = lines_of(content);
    let ghost all = texts(ls@);
    let ghost min = config.min_function_lines as nat;
    let ghost max = config.max_functions_per_file as nat;
    let lang: Lang = language(ext);
    let n: usize = ls.len();
    assert(all.len() == n);
    let stop: usize = if n > 2000 {
        2000
    } else {
        n
    };
    let mut out: Vec<FunctionInfo> = Vec::new();
    let mut i: usize = 0;
    assert(function_texts(out@) =~= Seq::<FunctionText>::empty());
    while i < stop
        invariant
            i <= stop <= n == ls@.len(),
            functions_from(all, ext@, min, max, i as int, stop as int, function_texts(out@))
                == functions_in(content@, ext@, min, max),
        decreases stop - i,
    {
        assert(all[i as int] == ls@[i as int]@);
        let ghost found = function_texts(out@);
        match find_declared_function(trim(ls[i].as_str()).as_str(), lang) {
            Some(name) => {
                let end: usize = extract_function_body(ls.as_slice(), i, ext);
                if end > i {
                    let body: String = join(
                        slice_texts(ls.as_slice(), i, end + 1).as_slice(),
                        "\n",
                    );
                    let stats: TextStats = calc_stats(body.as_str());
                    if stats.lines >= config.min_function_lines {
                        let f: FunctionInfo = FunctionInfo {
                            name,
                            lines: stats.lines,
                            words: stats.words,
                            chars: stats.chars,
                            start_line: i + 1,
                            end_line: end + 1,
                        };
                        let ghost held = f@;
                        out.push(f);
                        assert(function_texts(out@) =~= found.push(held));
                    }
                }
                if out.len() >= config.max_functions_per_file {
                    return out;
                }
            },
            None => {},
        }
        i += 1;
    }
    out
}

/// The type that a trimmed line declares: its keyword and its name.
pub open spec fn declared_class(t: Seq<char>, lang: Lang) -> Option<(Seq<char>, Seq<char>)> {
    match lang {
        Lang::Rust => if occurs(t, "struct "@) && !occurs(t, "//"@) {
            class_named("struct"@, name_after(t, "struct "@, " {(:"@))
        } else if occurs(t, "enum "@) && !occurs(t, "//"@) {
            class_named("enum"@, name_after(t, "enum "@, " {(:"@))
        } else if occurs(t, "trait "@) && !occurs(t, "//"@) {
            class_named("trait"@, name_after(t, "trait "@, " {(:"@))
        } else {
            None
        },
        Lang::Python => if occurs(t, "class "@) && !"#"@.is_prefix_of(t) {
            class_named("class"@, name_after(t, "class "@, " {(:"@))
        } else {
            None
        },
        Lang::Script => if occurs(t, "class "@) && !occurs(t, "//"@) {
            class_named("class"@, name_after(t, "class "@, " {(:"@))
        } else {
            None
        },
        Lang::C => if occurs(t, "struct "@) && !"//"@.is_prefix_of(t) {
            class_named("struct"@, name_after(t, "struct "@, " {(:"@))
        } else if occurs(t, "class "@) && !"//"@.is_prefix_of(t) {
            class_named("class"@, name_after(t, "class "@, " {(:"@))
        } else if occurs(t, "enum "@) && !"//"@.is_prefix_of(t) {
            class_named("enum"@, name_after(t, "enum "@, " {(:"@))
        } else {
            None
        },
        Lang::Go => if occurs(t, "type "@) && occurs(t, "struct"@) {
            class_named("type"@, name_after(t, "type "@, " {(:"@))
        } else {
            None
        },
        Lang::Other => None,
    }
}

pub open spec fn class_named(kind: Seq<char>, name: Option<Seq<char>>) -> Option<
    (Seq<char>, Seq<char>),
> {
    match name {
        Some(n) => Some((kind, n)),
        None => None,
    }
}

fn name_class(kind: &'static str, name: Option<String>) -> (r: Option<(&'static str, String)>)
    ensures
        (match r {
            Some((k, n)) => Some((k@, n@)),
            None => None,
        }) == class_named(
            kind@,
            match name {
                Some(n) => Some(n@),
                None => None,
            },
        ),
{
    match name {
        Some(n) => Some((kind, n)),
        None => None,
    }
}

fn find_declared_class(t: &str, lang: Lang) -> (r: Option<(&'static str, String)>)
    ensures
        (match r {
            Some((k, n)) => Some((k@, n@)),
            None => None,
        }) == declared_class(t@, lang),
{
    match lang {
        Lang::Rust => if contains(t, "struct ") && !contains(t, "//") {
            name_class("struct", extract_class_name(t, "struct "))
        } else if contains(t, "enum ") && !contains(t, "//") {
            name_class("enum", extract_class_name(t, "enum "))
        } else if contains(t, "trait ") && !contains(t, "//") {
            name_class("trait", extract_class_name(t, "trait "))
        } else {
            None
        },
        Lang::Python => if contains(t, "class ") && !starts_with(t, "#") {
            name_class("class", extract_class_name(t, "class "))
        } else {
            None
        },
        Lang::Script => if contains(t, "class ") && !contains(t, "//") {
            name_class("class", extract_class_name(t, "class "))
        } else {
            None
        },
        Lang::C => if contains(t, "struct ") && !starts_with(t, "//") {
            name_class("struct", extract_class_name(t, "struct "))
        } else if contains(t, "class ") && !starts_with(t, "//") {
            name_class("class", extract_class_name(t, "class "))
        } else if contains(t, "enum ") && !starts_with(t, "//") {
            name_class("enum", extract_class_name(t, "enum "))
        } else {
            None
        },
        Lang::Go => if contains(t, "type ") && contains(t, "struct") {
            name_class("type", extract_class_name(t, "type "))
        } else {
            None
        },
        Lang::Other => None,
    }
}

/// Whether the methods of types are listed.
pub open spec fn lists_methods(ext: Seq<char>) -> bool {
    ext == "rs"@ || ext == "py"@ || ext == "js"@ || ext == "ts"@
}

/// What limits the lists of functions and types.
pub struct Limits {
    pub min_function: nat,
    pub max_functions: nat,
    pub min_class: nat,
    pub max_classes: nat,
}

/// The limits of a configuration.
pub open spec fn limits_of(config: WclConfig) -> Limits {
    Limits {
        min_function: config.min_function_lines as nat,
        max_functions: config.max_functions_per_file as nat,
        min_class: config.min_class_lines as nat,
        max_classes: config.max_classes_per_file as nat,
    }
}

/// The type that begins on line `i`, with its methods.
pub open spec fn class_on(
    ls: Seq<Seq<char>>,
    i: int,
    ext: Seq<char>,
    kind: Seq<char>,
    name: Seq<char>,
    lim: Limits,
) -> ClassText {
    let end = body_last(ls, i, ext);
    let body = stretch(ls, i, end);
    ClassText {
        name: kind + " "@ + name,
        lines: newlines(body),
        words: word_count(body),
        chars: body.len(),
        start_line: i + 1,
        end_line: end + 1,
        methods: if lists_methods(ext) {
            functions_in(body, ext, lim.min_function, lim.max_functions)
        } else {
            Seq::empty()
        },
    }
}

/// The types `found` so far and those from line `i` up to `stop`, until there are as many as
/// allowed.
pub open spec fn classes_from(
    ls: Seq<Seq<char>>,
    ext: Seq<char>,
    lim: Limits,
    i: int,
    stop: int,
    found: Seq<ClassText>,
) -> Seq<ClassText>
    decreases stop - i,
{
    if i >= stop {
        found
    } else {
        match declared_class(trimmed(ls[i]), lang_of(ext)) {
            Some((kind, name)) => {
                let now = if keeps_function(ls, i, ext, lim.min_class) {
                    found.push(class_on(ls, i, ext, kind, name, lim))
                } else {
                    found
                };
                if now.len() >= lim.max_classes {
                    now
                } else {
                    classes_from(ls, ext, lim, i + 1, stop, now)
                }
            },
            None => classes_from(ls, ext, lim, i + 1, stop, found),
        }
    }
}

/// The types of a text.
pub open spec fn classes_in(content: Seq<char>, ext: Seq<char>, lim: Limits) -> Seq<ClassText> {
    let ls = lines(content);
    classes_from(ls, ext, lim, 0, search_limit(ls), Seq::empty())
}

/// The types of a source text.
pub fn detect_classes_in_file(content: &str, ext: &str, config: &WclConfig) -> (r: Vec<ClassInfo>)
    ensures
        class_texts(r@) == classes_in(content@, ext@, limits_of(*config)),
{
    let ls: Vec<String> = lines_of(content);
    let ghost all = texts(ls@);
    let ghost lim = limits_of(*config);
    let lang: Lang = language(ext);
    let with_methods: bool = same(ext, "rs") || same(ext, "py") || same(ext, "js") || same(
        ext,
        "ts",
    );
    let n: usize = ls.len();
    assert(all.len() == n);
    let stop: usize = if n > 2000 {
        2000
    } else {
        n
    };
    let mut out: Vec<ClassInfo> = Vec::new();
    let mut i: usize = 0;
    assert(class_texts(out@) =~= Seq::<ClassText>::empty());
    while i < stop
        invariant
            i <= stop <= n == ls@.len(),
            classes_from(all, ext@, lim, i as int, stop as int, class_texts(out@)) == classes_in(
                content@,
                ext@,
                lim,
            ),
        decreases stop - i,
    {
        assert(all[i as int] == ls@[i as int]@);
        let ghost found = class_texts(out@);
        match find_declared_class(trim(ls[i].as_str()).as_str(), lang) {
            Some((kind, name)) => {
                let end: usize = extract_function_body(ls.as_slice(), i, ext);
                if end > i {
                    let body: String = join(
                        slice_texts(ls.as_slice(), i, end + 1).as_slice(),
                        "\n",
                    );
                    let stats: TextStats = calc_stats(body.as_str());
                    if stats.lines >= config.min_class_lines {
                        let methods: Vec<FunctionInfo> = if with_methods {
                            detect_functions_in_file(body.as_str(), ext, config)
                        } else {
                            Vec::new()
                        };
                        let mut full: String = kind.to_owned();
                        full.append(" ");
                        full.append(name.as_str());
                        let c: ClassInfo = ClassInfo {
                            name: full,
                            lines: stats.lines,
                            words: stats.words,
                            chars: stats.chars,
                            start_line: i + 1,
                            end_line: end + 1,
                            methods,
                        };
                        let ghost held = c@;
                        assert(held.methods =~= class_on(
                            all,
                            i as int,
                            ext@,
                            kind@,
                            name@,
                            lim,
                        ).methods);
                        out.push(c);
                        assert(class_texts(out@) =~= found.push(held));
                    }
                }
                if out.len() >= config.max_classes_per_file {
                    return out;
                }
            },
            None => {},
        }
        i += 1;
    }
    out
}

/// How often a name stands in a text, as it is counted.
pub open spec fn uses_of(content: Seq<char>, name: Seq<char>) -> usize {
    capped(count_of(content, name)) as usize
}

/// The uses of the functions of a text.
pub open spec fn function_uses(content: Seq<char>, fs: Seq<FunctionText>) -> Map<Seq<char>, usize>
    decreases fs.len(),
{
    if fs.len() == 0 {
        Map::empty()
    } else {
        let m = function_uses(content, fs.drop_last());
        let n = fs.last().name;
        if count_of(content, n) > 0 {
            m.insert(n, uses_of(content, n))
        } else {
            m
        }
    }
}

/// The last word of a text, or the text where it has none.
pub open spec fn simple_name(name: Seq<char>) -> Seq<char> {
    if words(name).len() > 0 {
        words(name).last()
    } else {
        name
    }
}

/// The uses of the functions and then of the types of a text, the types under their full names.
pub open spec fn all_uses(
    content: Seq<char>,
    fs: Seq<FunctionText>,
    cs: Seq<ClassText>,
) -> Map<Seq<char>, usize>
    decreases cs.len(),
{
    if cs.len() == 0 {
        function_uses(content, fs)
    } else {
        let m = all_uses(content, fs, cs.drop_last());
        let n = simple_name(cs.last().name);
        if count_of(content, n) > 0 {
            m.insert(cs.last().name, uses_of(content, n))
        } else {
            m
        }
    }
}

/// How often the functions and types of a text are named in it.
pub fn detect_usage_in_file(content: &str, functions: &[FunctionInfo], classes: &[ClassInfo]) -> (r:
    TextMap<usize>)
    ensures
        r.wf(),
        r@ == all_uses(content@, function_texts(functions@), class_texts(classes@)),
{
    let ghost fs = function_texts(functions@);
    let ghost cs = class_texts(classes@);
    let mut uses: TextMap<usize> = TextMap::new();
    let mut i: usize = 0;
    while i < functions.len()
        invariant
            i <= functions@.len(),
            uses.wf(),
            uses@ == function_uses(content@, fs.take(i as int)),
        decreases functions@.len() - i,
    {
        assert(fs.take(i + 1).drop_last() =~= fs.take(i as int));
        assert(fs.take(i + 1).last() == functions@[i as int]@);
        let n: usize = count(content, functions[i].name.as_str());
        if n > 0 {
            uses.insert(functions[i].name.as_str(), n);
        }
        i += 1;
    }
    assert(fs.take(i as int) =~= fs);
    let mut k: usize = 0;
    assert(cs.take(0) =~= Seq::<ClassText>::empty());
    while k < classes.len()
        invariant
            k <= classes@.len(),
            uses.wf(),
            uses@ == all_uses(content@, fs, cs.take(k as int)),
        decreases classes@.len() - k,
    {
        assert(cs.take(k + 1).drop_last() =~= cs.take(k as int));
        assert(cs.take(k + 1).last() == classes@[k as int]@);
        let simple: String = match last_word(classes[k].name.as_str()) {
            Some(w) => w,
            None => classes[k].name.clone(),
        };
        let n: usize = count(content, simple.as_str());
        if n > 0 {
            uses.insert(classes[k].name.as_str(), n);
        }
        k += 1;
    }
    assert(cs.take(k as int) =~= cs);
    uses
}

/// Whether a file name fits a pattern of files to pass over: its extension in small letters, with
/// the dot, is the pattern, or the name ends with it.
pub open spec fn fits_skip(name: Seq<char>, ext: Seq<char>, pattern: Seq<char>) -> bool {
    "."@ + lowercase(ext) == pattern || pattern.is_suffix_of(name)
}

/// Whether a file is passed over: it is larger than allowed, its name fits a pattern, or one of
/// its first 1024 bytes is zero. Size and bytes are none where they cannot be read.
pub open spec fn is_skipped_file(
    path: Seq<char>,
    size: Option<u64>,
    bytes: Option<Seq<u8>>,
    max_kb: nat,
    patterns: Seq<Seq<char>>,
) -> bool {
    let name = match name_of(path) {
        Some(n) => n,
        None => Seq::empty(),
    };
    let ext = match path_extension(path) {
        Some(e) => e,
        None => Seq::empty(),
    };
    ||| (size matches Some(n) && n / 1024 > max_kb)
    ||| exists|i: int| 0 <= i < patterns.len() && fits_skip(name, ext, #[trigger] patterns[i])
    ||| (bytes matches Some(b) && looks_binary(b))
}

/// Whether one of the first 1024 bytes is zero.
pub open spec fn looks_binary(b: Seq<u8>) -> bool {
    exists|i: int| 0 <= i < b.len() && i < 1024 && #[trigger] b[i] == 0
}

fn has_zero_byte(bytes: &[u8]) -> (r: bool)
    ensures
        r == looks_binary(bytes@),
{
    let mut i: usize = 0;
    while i < bytes.len() && i < 1024
        invariant
            i <= bytes@.len(),
            i <= 1024,
            forall|j: int| 0 <= j < i ==> #[trigger] bytes@[j] != 0,
        decreases bytes@.len() - i,
    {
        if bytes[i] == 0 {
            assert(bytes@[i as int] == 0);
            return true;
        }
        i += 1;
    }
    false
}

/// Whether a file is passed over.
pub fn should_skip_file(
    path: &str,
    size: Option<u64>,
    bytes: Option<&[u8]>,
    config: &WclConfig,
) -> (r:
    bool)
    ensures
        r == is_skipped_file(
            path@,
            size,
            match bytes {
                Some(b) => Some(b@),
                None => None,
            },
            config.max_file_size_kb as nat,
            texts(config.skip_patterns@),
        ),
{
    let ghost ps = texts(config.skip_patterns@);
    match size {
        Some(n) => {
            if n / 1024 > config.max_file_size_kb as u64 {
                return true;
            }
        },
        None => {},
    }
    let name: String = match file_name(path) {
        Some(n) => n,
        None => String::new(),
    };
    let ext: String = match extension(path) {
        Some(e) => e,
        None => String::new(),
    };
    let ghost shown_name = match name_of(path@) {
        Some(n) => n,
        None => Seq::empty(),
    };
    let ghost shown_ext = match path_extension(path@) {
        Some(e) => e,
        None => Seq::empty(),
    };
    assert(name@ =~= shown_name);
    assert(ext@ =~= shown_ext);
    let mut dotted: String = ".".to_owned();
    dotted.append(to_lowercase(ext.as_str()).as_str());
    let mut i: usize = 0;
    while i < config.skip_patterns.len()
        invariant
            i <= config.skip_patterns@.len(),
            forall|j: int| 0 <= j < i ==> !fits_skip(name@, ext@, #[trigger] ps[j]),
        decreases config.skip_patterns@.len() - i,
    {
        assert(ps[i as int] == config.skip_patterns@[i as int]@);
        let p: &str = config.skip_patterns[i].as_str();
        if same(dotted.as_str(), p) || ends_with(name.as_str(), p) {
            assert(fits_skip(name@, ext@, ps[i as int]));
            return true;
        }
        i += 1;
    }
    assert(forall|j: int| 0 <= j < ps.len() ==> !fits_skip(shown_name, shown_ext, #[trigger] ps[j]));
    match bytes {
        Some(b) => has_zero_byte(b),
        None => false,
    }
}

/// Whether a directory is passed over.
pub fn should_skip_dir(path: &str, config: &WclConfig) -> (r: bool)
    ensures
        r == (name_of(path@) matches Some(n) && texts(config.skip_dirs@).contains(n)),
{
    match file_name(path) {
        Some(n) => contains_text(config.skip_dirs.as_slice(), n.as_str()),
        None => false,
    }
}

} // verus!
