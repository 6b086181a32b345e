//! Reports on the errors of a build.

use vstd::prelude::*;
use crate::braces::{closing_line, find_closing_line};
use crate::common::TextStats;
use crate::pattern::{captures, group_texts, regex_groups};
use crate::syntax::{
    impl_block, item_texts, lines_counted, parse_impl, parse_items, source_items, ItemKind, ItemText,
    SourceItem,
};
use crate::text::{
    dec, decimal, join, joined, lines, lines_of, number, pad_left, padded_left, parse_usize,
    slice_texts, texts,
};

verus! {

/// An error of a build, and the function that it lies in.
#[derive(Debug, PartialEq, Eq)]
pub struct ErrorInfo {
    pub file_path: String,
    pub file_exists: bool,
    pub line: usize,
    pub column: usize,
    pub error_code: String,
    pub message: String,
    pub code_snippet: Option<String>,
    pub function: Option<FunctionInfo>,
}

/// A function around an error.
#[derive(Debug, PartialEq, Eq)]
pub struct FunctionInfo {
    pub name: String,
    pub body: String,
    pub start_line: usize,
    pub end_line: usize,
    pub is_pub: bool,
    pub is_async: bool,
}

/// What a `FunctionInfo` holds.
pub struct FunctionText {
    pub name: Seq<char>,
    pub body: Seq<char>,
    pub start_line: nat,
    pub end_line: nat,
    pub is_pub: bool,
    pub is_async: bool,
}

impl View for FunctionInfo {
    type V = FunctionText;

    open spec fn view(&self) -> FunctionText {
        FunctionText {
            name: self.name@,
            body: self.body@,
            start_line: self.start_line as nat,
            end_line: self.end_line as nat,
            is_pub: self.is_pub,
            is_async: self.is_async,
        }
    }
}

/// What an `ErrorInfo` holds.
pub struct ErrorText {
    pub file_path: Seq<char>,
    pub file_exists: bool,
    pub line: nat,
    pub column: nat,
    pub error_code: Seq<char>,
    pub message: Seq<char>,
    pub code_snippet: Option<Seq<char>>,
    pub function: Option<FunctionText>,
}

impl View for ErrorInfo {
    type V = ErrorText;

    open spec fn view(&self) -> ErrorText {
        ErrorText {
            file_path: self.file_path@,
            file_exists: self.file_exists,
            line: self.line as nat,
            column: self.column as nat,
            error_code: self.error_code@,
            message: self.message@,
            code_snippet: match self.code_snippet {
                Some(s) => Some(s@),
                None => None,
            },
            function: match self.function {
                Some(f) => Some(f@),
                None => None,
            },
        }
    }
}

pub open spec fn error_texts(v: Seq<ErrorInfo>) -> Seq<ErrorText> {
    v.map_values(|e: ErrorInfo| e@)
}

/// The groups of a match, where there is one.
pub type Groups = Option<Vec<Option<String>>>;

/// What the groups of a match hold.
pub open spec fn groups_text(g: Groups) -> Option<Seq<Option<Seq<char>>>> {
    match g {
        Some(v) => Some(group_texts(v@)),
        None => None,
    }
}

pub open spec fn groups_texts(v: Seq<Groups>) -> Seq<Option<Seq<Option<Seq<char>>>>> {
    v.map_values(|g: Groups| groups_text(g))
}

/// Group `i` of a match; empty where it took no part.
pub open spec fn group(gs: Seq<Option<Seq<char>>>, i: int) -> Seq<char> {
    if i < gs.len() && gs[i] is Some {
        gs[i]->0
    } else {
        Seq::empty()
    }
}

fn group_of(gs: &Vec<Option<String>>, i: usize) -> (r: String)
    ensures
        r@ == group(group_texts(gs@), i as int),
{
    let ghost all = group_texts(gs@);
    let mut r: String = String::new();
    if i < gs.len() {
        assert(all[i as int] == match gs@[i as int] {
            Some(s) => Some(s@),
            None => None,
        });
        match &gs[i] {
            Some(s) => {
                r = s.clone();
            },
            None => {},
        }
    }
    assert(r@ =~= group(all, i as int));
    r
}

/// The number that a text denotes; zero where it denotes none that fits.
pub open spec fn number_or_zero(s: Seq<char>) -> nat {
    match number(s) {
        Some(n) => if n <= usize::MAX {
            n
        } else {
            0
        },
        None => 0,
    }
}

fn parse_or_zero(s: &str) -> (r: usize)
    ensures
        r == number_or_zero(s@),
{
    match parse_usize(s) {
        Some(n) => n,
        None => 0,
    }
}

/// The first location on lines `j` up to `end`.
pub open spec fn next_location(
    locations: Seq<Option<Seq<Option<Seq<char>>>>>,
    j: int,
    end: int,
) -> Option<Seq<Option<Seq<char>>>>
    decreases end - j,
{
    if j >= end || j >= locations.len() {
        None
    } else if locations[j] is Some {
        locations[j]
    } else {
        next_location(locations, j + 1, end)
    }
}

/// The error whose first line is line `i`: its location stands on one of the nine lines behind it.
pub open spec fn error_at(
    head: Seq<Option<Seq<char>>>,
    locations: Seq<Option<Seq<Option<Seq<char>>>>>,
    i: int,
) -> ErrorText {
    let loc = next_location(locations, i + 1, i + 10);
    ErrorText {
        file_path: match loc {
            Some(l) => group(l, 1),
            None => Seq::empty(),
        },
        file_exists: false,
        line: match loc {
            Some(l) => number_or_zero(group(l, 2)),
            None => 0,
        },
        column: match loc {
            Some(l) => number_or_zero(group(l, 3)),
            None => 0,
        },
        error_code: "E"@ + group(head, 1),
        message: group(head, 2),
        code_snippet: None,
        function: None,
    }
}

/// The errors whose first lines are among the first lines of an output.
pub open spec fn errors_of(
    heads: Seq<Option<Seq<Option<Seq<char>>>>>,
    locations: Seq<Option<Seq<Option<Seq<char>>>>>,
) -> Seq<ErrorText>
    decreases heads.len(),
{
    if heads.len() == 0 {
        Seq::empty()
    } else {
        errors_of(heads.drop_last(), locations) + match heads.last() {
            Some(h) => seq![error_at(h, locations, heads.len() - 1)],
            None => Seq::empty(),
        }
    }
}

fn read_error(head: &Vec<Option<String>>, locations: &[Groups], i: usize) -> (r: ErrorInfo)
    requires
        i < locations@.len(),
    ensures
        r@ == error_at(group_texts(head@), groups_texts(locations@), i as int),
{
    let ghost ls = groups_texts(locations@);
    let mut error_code: String = "E".to_owned();
    error_code.append(group_of(head, 1).as_str());
    let mut error: ErrorInfo = ErrorInfo {
        file_path: String::new(),
        file_exists: false,
        line: 0,
        column: 0,
        error_code,
        message: group_of(head, 2),
        code_snippet: None,
        function: None,
    };
    let n: usize = locations.len();
    let mut j: usize = i + 1;
    while j < n && j - i < 10
        invariant
            i < j <= n == locations@.len(),
            j - i <= 10,
            next_location(ls, j as int, i + 10) == next_location(ls, i + 1, i + 10),
            error@ == (ErrorText {
                file_path: Seq::empty(),
                file_exists: false,
                line: 0,
                column: 0,
                error_code: "E"@ + group(group_texts(head@), 1),
                message: group(group_texts(head@), 2),
                code_snippet: None,
                function: None,
            }),
        decreases n - j,
    {
        assert(ls[j as int] == groups_text(locations@[j as int]));
        match &locations[j] {
            Some(l) => {
                error.file_path = group_of(l, 1);
                error.line = parse_or_zero(group_of(l, 2).as_str());
                error.column = parse_or_zero(group_of(l, 3).as_str());
                return error;
            },
            None => {},
        }
        j += 1;
    }
    error
}

/// The errors of an output, given for each of its lines what the patterns for the first line of an
/// error and for a location find there.
pub fn collect_errors(heads: &[Groups], locations: &[Groups]) -> (r: Vec<ErrorInfo>)
    requires
        heads@.len() == locations@.len(),
    ensures
        error_texts(r@) == errors_of(groups_texts(heads@), groups_texts(locations@)),
{
    let ghost hs = groups_texts(heads@);
    let ghost ls = groups_texts(locations@);
    let mut out: Vec<ErrorInfo> = Vec::new();
    let mut i: usize = 0;
    while i < heads.len()
        invariant
            i <= heads@.len() == locations@.len(),
            error_texts(out@) == errors_of(hs.take(i as int), ls),
        decreases heads@.len() - i,
    {
        let ghost now = hs.take(i + 1);
        let ghost before = error_texts(out@);
        assert(now.drop_last() =~= hs.take(i as int));
        assert(now.last() == groups_text(heads@[i as int]));
        match &heads[i] {
            Some(h) => {
                let e: ErrorInfo = read_error(h, locations, i);
                let ghost held = e@;
                out.push(e);
                assert(error_texts(out@) =~= before.push(held));
            },
            None => {},
        }
        assert(error_texts(out@) =~= errors_of(now, ls));
        i += 1;
    }
    assert(hs.take(i as int) =~= hs);
    out
}

/// What a pattern finds on each of the lines.
pub open spec fn line_groups(pattern: Seq<char>, ls: Seq<Seq<char>>) -> Seq<
    Option<Seq<Option<Seq<char>>>>,
> {
    ls.map_values(|l: Seq<char>| regex_groups(pattern, l))
}

fn capture_lines(pattern: &str, ls: &[String]) -> (r: Vec<Groups>)
    ensures
        groups_texts(r@) == line_groups(pattern@, texts(ls@)),
{
    let ghost all = line_groups(pattern@, texts(ls@));
    let mut out: Vec<Groups> = Vec::new();
    let mut i: usize = 0;
    while i < ls.len()
        invariant
            i <= ls@.len(),
            groups_texts(out@) == all.take(i as int),
        decreases ls@.len() - i,
    {
        out.push(captures(pattern, ls[i].as_str()));
        assert(groups_texts(out@) =~= all.take(i + 1));
        i += 1;
    }
    assert(groups_texts(out@) =~= all);
    out
}

/// The errors of the output of a build: their codes and messages, and the files, lines and columns
/// of the locations that follow within nine lines.
pub fn parse_cargo_errors(content: &str) -> (r: Vec<ErrorInfo>)
    ensures
        error_texts(r@) == errors_of(
            line_groups(r"error\[E(\d+)\]: (.+)"@, lines(content@)),
            line_groups(r" --> (.+):(\d+):(\d+)"@, lines(content@)),
        ),
{
    let ls: Vec<String> = lines_of(content);
    let heads: Vec<Groups> = capture_lines(r"error\[E(\d+)\]: (.+)", ls.as_slice());
    let locations: Vec<Groups> = capture_lines(r" --> (.+):(\d+):(\d+)", ls.as_slice());
    proof {
        assert(groups_texts(heads@).len() == heads@.len());
        assert(groups_texts(locations@).len() == locations@.len());
    }
    collect_errors(heads.as_slice(), locations.as_slice())
}

/// The last line of the function that begins on line `start_line`, counted from one: the line that
/// closes its first block, or its first line where none does.
pub open spec fn function_end(ls: Seq<Seq<char>>, start_line: int) -> int {
    match closing_line(ls, start_line - 1, 0, false, false) {
        Some(i) => i + 1,
        None => start_line,
    }
}

/// The last line of the function that begins on line `start_line`.
pub fn find_function_end(ls: &[String], start_line: usize) -> (r: usize)
    requires
        start_line >= 1,
    ensures
        r == function_end(texts(ls@), start_line as int),
{
    let n: usize = ls.len();
    match find_closing_line(ls, start_line - 1, false) {
        Some(i) => i + 1,
        None => start_line,
    }
}

/// The functions among some items.
pub open spec fn functions_among(v: Seq<ItemText>) -> Seq<ItemText>
    decreases v.len(),
{
    if v.len() == 0 {
        Seq::empty()
    } else {
        let earlier = functions_among(v.drop_last());
        if v.last().kind == ItemKind::Function {
            earlier.push(v.last())
        } else {
            earlier
        }
    }
}

/// The functions of a text, those of its `impl` blocks too, in order.
pub open spec fn all_functions(content: Seq<char>, items: Seq<ItemText>) -> Seq<ItemText>
    decreases items.len(),
{
    if items.len() == 0 {
        Seq::empty()
    } else {
        all_functions(content, items.drop_last()) + match items.last().kind {
            ItemKind::Function => seq![items.last()],
            ItemKind::Impl => match impl_block(content, (items.len() - 1) as nat) {
                Some(b) => functions_among(b.members),
                None => Seq::empty(),
            },
            _ => Seq::empty(),
        }
    }
}

fn keep_functions(v: &[SourceItem]) -> (r: Vec<SourceItem>)
    requires
        lines_counted(v@),
    ensures
        item_texts(r@) == functions_among(item_texts(v@)),
        all_counted(r@),
{
    let ghost all = item_texts(v@);
    let mut out: Vec<SourceItem> = Vec::new();
    let mut i: usize = 0;
    while i < v.len()
        invariant
            i <= v@.len(),
            item_texts(out@) == functions_among(all.take(i as int)),
            all_counted(out@),
        decreases v@.len() - i,
    {
        let ghost now = all.take(i + 1);
        let ghost before = item_texts(out@);
        assert(now.drop_last() =~= all.take(i as int));
        assert(now.last() == v@[i as int]@);
        if v[i].kind == ItemKind::Function {
            let c: SourceItem = v[i].copy();
            let ghost held = c@;
            out.push(c);
            assert(item_texts(out@) =~= before.push(held));
        }
        assert(item_texts(out@) =~= functions_among(now));
        i += 1;
    }
    assert(all.take(i as int) =~= all);
    out
}

/// Whether every item of a list begins on a line that counts from one.
pub open spec fn all_counted(v: Seq<SourceItem>) -> bool {
    forall|i: int| 0 <= i < v.len() ==> (#[trigger] v[i]).line >= 1
}

/// The functions of a source text in order; none where it does not parse.
pub fn functions_of(content: &str) -> (r: Option<Vec<SourceItem>>)
    ensures
        match source_items(content@) {
            Some(items) => r is Some && item_texts(r->0@) == all_functions(content@, items)
                && all_counted(r->0@),
            None => r is None,
        },
{
    let items: Vec<SourceItem> = match parse_items(content) {
        Some(items) => items,
        None => {
            return None;
        },
    };
    let ghost all = item_texts(items@);
    let mut out: Vec<SourceItem> = Vec::new();
    let mut i: usize = 0;
    while i < items.len()
        invariant
            i <= items@.len(),
            item_texts(out@) == all_functions(content@, all.take(i as int)),
            all_counted(out@),
        decreases items@.len() - i,
    {
        let ghost now = all.take(i + 1);
        let ghost before = item_texts(out@);
        assert(now.drop_last() =~= all.take(i as int));
        assert(now.last() == items@[i as int]@);
        match items[i].kind {
            ItemKind::Function => {
                let c: SourceItem = items[i].copy();
                let ghost held = c@;
                out.push(c);
                assert(item_texts(out@) =~= before.push(held));
            },
            ItemKind::Impl => match parse_impl(content, i) {
                Some(block) => {
                    let mut known: Vec<SourceItem> = keep_functions(block.members.as_slice());
                    let ghost ks = item_texts(known@);
                    out.append(&mut known);
                    assert(item_texts(out@) =~= before + ks);
                },
                None => {},
            },
            _ => {},
        }
        assert(item_texts(out@) =~= all_functions(content@, now));
        i += 1;
    }
    assert(all.take(i as int) =~= all);
    Some(out)
}

/// The lines of a function, one after the other.
pub open spec fn function_body(ls: Seq<Seq<char>>, start_line: int, end_line: int) -> Seq<char> {
    if 1 <= start_line <= end_line <= ls.len() {
        joined(ls.subrange(start_line - 1, end_line), "\n"@)
    } else {
        Seq::empty()
    }
}

/// The first of the functions, from function `i` on, that line `line` lies in.
pub open spec fn enclosing(
    ls: Seq<Seq<char>>,
    spans: Seq<ItemText>,
    line: int,
    i: int,
) -> Option<FunctionText>
    decreases spans.len() - i,
{
    if i >= spans.len() {
        None
    } else {
        let f = spans[i];
        let end = function_end(ls, f.line as int);
        if f.line <= line <= end {
            Some(
                FunctionText {
                    name: f.name,
                    body: function_body(ls, f.line as int, end),
                    start_line: f.line,
                    end_line: end as nat,
                    is_pub: f.is_pub,
                    is_async: f.is_async,
                },
            )
        } else {
            enclosing(ls, spans, line, i + 1)
        }
    }
}

/// The first of the functions that line `line` lies in.
pub fn find_enclosing(ls: &[String], spans: &[SourceItem], line: usize) -> (r: Option<FunctionInfo>)
    requires
        all_counted(spans@),
    ensures
        (match r {
            Some(f) => Some(f@),
            None => None,
        }) == enclosing(texts(ls@), item_texts(spans@), line as int, 0),
{
    let ghost all = item_texts(spans@);
    let mut i: usize = 0;
    while i < spans.len()
        invariant
            i <= spans@.len(),
            enclosing(texts(ls@), all, line as int, i as int) == enclosing(
                texts(ls@),
                all,
                line as int,
                0,
            ),
        decreases spans@.len() - i,
    {
        assert(all[i as int] == spans@[i as int]@);
        let f: &SourceItem = &spans[i];
        let end: usize = find_function_end(ls, f.line);
        if line >= f.line && line <= end {
            let mut body: String = String::new();
            if f.line <= end && end <= ls.len() {
                body = join(slice_texts(ls, f.line - 1, end).as_slice(), "\n");
            }
            assert(body@ =~= function_body(texts(ls@), f.line as int, end as int));
            return Some(
                FunctionInfo {
                    name: f.name.clone(),
                    body,
                    start_line: f.line,
                    end_line: end,
                    is_pub: f.is_pub,
                    is_async: f.is_async,
                },
            );
        }
        i += 1;
    }
    None
}

/// The function of a source text that line `line` lies in.
pub fn find_function_with_syn(content: &str, line: usize) -> (r: Option<FunctionInfo>)
    ensures
        (match r {
            Some(f) => Some(f@),
            None => None,
        }) == match source_items(content@) {
            Some(items) => enclosing(
                lines(content@),
                all_functions(content@, items),
                line as int,
                0,
            ),
            None => None,
        },
{
    match functions_of(content) {
        Some(spans) => {
            let ls: Vec<String> = lines_of(content);
            find_enclosing(ls.as_slice(), spans.as_slice(), line)
        },
        None => None,
    }
}

/// Line `i` of a snippet around line `line`: an arrow before the line itself, and its number.
pub open spec fn snippet_row(ls: Seq<Seq<char>>, line: int, i: int) -> Seq<char> {
    (if i + 1 == line {
        "→ "@
    } else {
        "  "@
    }) + padded_left(dec((i + 1) as nat), 4) + " "@ + ls[i]
}

/// Lines `from` up to `to` of a snippet.
pub open spec fn snippet_rows(ls: Seq<Seq<char>>, line: int, from: int, to: int) -> Seq<Seq<char>> {
    Seq::new((to - from) as nat, |k: int| snippet_row(ls, line, from + k))
}

/// The lines around line `line` of a text: the two before it, it and the two behind it.
pub open spec fn snippet(ls: Seq<Seq<char>>, line: int) -> Seq<char> {
    let from = if line >= 3 {
        line - 3
    } else {
        0
    };
    let to = if line + 2 < ls.len() {
        line + 2
    } else {
        ls.len() as int
    };
    if from < to {
        joined(snippet_rows(ls, line, from, to), "\n"@)
    } else {
        Seq::empty()
    }
}

/// The lines around line `line` of a text.
pub fn extract_code_snippet(content: &str, line: usize) -> (r: String)
    ensures
        r@ == snippet(lines(content@), line as int),
{
    let ls: Vec<String> = lines_of(content);
    let ghost all = texts(ls@);
    let from: usize = line.saturating_sub(3);
    let to: usize = if ls.len() > 2 && line < ls.len() - 2 {
        line + 2
    } else {
        ls.len()
    };
    assert(all.len() == ls@.len());
    if from >= to {
        return String::new();
    }
    let mut rows: Vec<String> = Vec::new();
    let mut i: usize = from;
    while i < to
        invariant
            from <= i <= to <= ls@.len(),
            texts(rows@) == snippet_rows(all, line as int, from as int, i as int),
        decreases to - i,
    {
        let mut row: String = if i + 1 == line {
            "→ ".to_owned()
        } else {
            "  ".to_owned()
        };
        row.append(pad_left(decimal((i + 1) as u64).as_str(), 4).as_str());
        row.append(" ");
        row.append(ls[i].as_str());
        let ghost before = texts(rows@);
        let ghost held = row@;
        assert(held == snippet_row(all, line as int, i as int));
        rows.push(row);
        assert(texts(rows@) =~= before.push(held));
        assert(texts(rows@) =~= snippet_rows(all, line as int, from as int, i + 1));
        i += 1;
    }
    join(rows.as_slice(), "\n")
}

/// Notes what the file of an error, which exists, shows: the lines around the error and the
/// function that it lies in. Nothing changes for an error without a line.
pub fn attach_source(error: &mut ErrorInfo, content: Option<&str>)
    ensures
        ({
            let was = old(error)@;
            final(error)@ == match content {
                Some(c) => if was.line > 0 {
                    ErrorText {
                        file_exists: true,
                        code_snippet: Some(snippet(lines(c@), was.line as int)),
                        function: match source_items(c@) {
                            Some(items) => enclosing(
                                lines(c@),
                                all_functions(c@, items),
                                was.line as int,
                                0,
                            ),
                            None => None,
                        },
                        ..was
                    }
                } else {
                    ErrorText { file_exists: true, ..was }
                },
                None => ErrorText { file_exists: true, ..was },
            }
        }),
{
    error.file_exists = true;
    match content {
        Some(c) => {
            if error.line > 0 {
                error.code_snippet = Some(extract_code_snippet(c, error.line));
                error.function = find_function_with_syn(c, error.line);
            }
        },
        None => {},
    }
}

/// What stands before the name of a function, with a space behind it where it is not empty.
pub open spec fn modifier(is_pub: bool, is_async: bool) -> Seq<char> {
    if is_pub && is_async {
        "pub async  "@
    } else if is_pub {
        "pub "@
    } else if is_async {
        "async  "@
    } else {
        ""@
    }
}

fn modifier_text(is_pub: bool, is_async: bool) -> (r: &'static str)
    ensures
        r@ == modifier(is_pub, is_async),
{
    if is_pub && is_async {
        "pub async  "
    } else if is_pub {
        "pub "
    } else if is_async {
        "async  "
    } else {
        ""
    }
}

/// The part of the report on an error that tells the function.
pub open spec fn function_shown(e: ErrorText) -> Seq<char> {
    match e.function {
        Some(f) => "\nFunction: "@ + modifier(f.is_pub, f.is_async) + f.name + "\n  Lines: "@ + dec(
            f.start_line,
        ) + "-"@ + dec(f.end_line) + "\n\n"@ + f.body + "\n"@,
        None => if e.file_exists {
            "\n⚠ [FUNCTION WAS NOT FOUND]\n  Error at line "@ + dec(e.line)
                + ", but no enclosing function found\n"@
        } else {
            Seq::empty()
        },
    }
}

fn show_function(e: &ErrorInfo) -> (r: String)
    ensures
        r@ == function_shown(e@),
{
    match &e.function {
        Some(f) => {
            let mut out: String = "\nFunction: ".to_owned();
            out.append(modifier_text(f.is_pub, f.is_async));
            out.append(f.name.as_str());
            out.append("\n  Lines: ");
            out.append(decimal(f.start_line as u64).as_str());
            out.append("-");
            out.append(decimal(f.end_line as u64).as_str());
            out.append("\n\n");
            out.append(f.body.as_str());
            out.append("\n");
            out
        },
        None => if e.file_exists {
            let mut out: String = "\n⚠ [FUNCTION WAS NOT FOUND]\n  Error at line ".to_owned();
            out.append(decimal(e.line as u64).as_str());
            out.append(", but no enclosing function found\n");
            out
        } else {
            String::new()
        },
    }
}

/// The part of the report that tells error number `n`.
pub open spec fn error_shown(n: nat, e: ErrorText) -> Seq<char> {
    "\n━━━━━━━━━━━━━━━━━━━━━━━━━━━━━━━━━━━━━━━━\nError "@ + dec(n) + ": "@ + e.error_code + "\n  "@
        + e.file_path + ":"@ + dec(e.line) + ":"@ + dec(e.column) + "\n  "@ + e.message + "\n"@
        + match e.code_snippet {
        Some(s) => "\nCode snippet:\n"@ + s + "\n"@,
        None => Seq::empty(),
    } + function_shown(e) + "\n"@
}

fn show_error(n: usize, e: &ErrorInfo) -> (r: String)
    ensures
        r@ == error_shown(n as nat, e@),
{
    let mut out: String =
        "\n━━━━━━━━━━━━━━━━━━━━━━━━━━━━━━━━━━━━━━━━\nError ".to_owned();
    out.append(decimal(n as u64).as_str());
    out.append(": ");
    out.append(e.error_code.as_str());
    out.append("\n  ");
    out.append(e.file_path.as_str());
    out.append(":");
    out.append(decimal(e.line as u64).as_str());
    out.append(":");
    out.append(decimal(e.column as u64).as_str());
    out.append("\n  ");
    out.append(e.message.as_str());
    out.append("\n");
    let mut code: String = String::new();
    match &e.code_snippet {
        Some(s) => {
            code = "\nCode snippet:\n".to_owned();
            code.append(s.as_str());
            code.append("\n");
        },
        None => {},
    }
    out.append(code.as_str());
    out.append(show_function(e).as_str());
    out.append("\n");
    out
}

pub open spec fn errors_shown(es: Seq<ErrorText>) -> Seq<char>
    decreases es.len(),
{
    if es.len() == 0 {
        Seq::empty()
    } else {
        errors_shown(es.drop_last()) + error_shown(es.len(), es.last())
    }
}

/// The report on the errors of a build.
pub open spec fn error_report(es: Seq<ErrorText>) -> Seq<char> {
    "// Cargo Build Error Report\n// ============================================================\n// Total errors: "@
        + dec(es.len())
        + "\n// ============================================================\n\n"@ + errors_shown(es)
}

/// The report on the errors of a build.
pub fn build_error_report(errors: &[ErrorInfo]) -> (r: String)
    ensures
        r@ == error_report(error_texts(errors@)),
{
    let ghost all = error_texts(errors@);
    let mut rows: String = String::new();
    let mut i: usize = 0;
    while i < errors.len()
        invariant
            i <= errors@.len(),
            rows@ == errors_shown(all.take(i as int)),
        decreases errors@.len() - i,
    {
        assert(all.take(i + 1).drop_last() =~= all.take(i as int));
        assert(all.take(i + 1).last() == errors@[i as int]@);
        rows.append(show_error(i + 1, &errors[i]).as_str());
        i += 1;
    }
    assert(all.take(i as int) =~= all);
    let mut out: String =
        "// Cargo Build Error Report\n// ============================================================\n// Total errors: ".to_owned();
    out.append(decimal(errors.len() as u64).as_str());
    out.append("\n// ============================================================\n\n");
    out.append(rows.as_str());
    out
}

/// What is shown of error number `n` before the question.
pub fn preview_error(n: usize, e: &ErrorInfo) -> (r: String)
    ensures
        r@
            == "\n\x1b[1;31m━━━━━━━━━━━━━━━━━━━━━━━━━━━━━━━━━━━━━━━━\x1b[0m\n\x1b[1;31mError "@
            + dec(n as nat) + ": "@ + e.error_code@ + "\x1b[0m\n\x1b[90m  "@ + e.file_path@ + ":"@
            + dec(e.line as nat) + ":"@ + dec(e.column as nat) + "\x1b[0m\n\x1b[33m  "@
            + e.message@ + "\x1b[0m\n"@ + match e.function {
            Some(f) => "\x1b[36m  → Function: "@ + modifier(f.is_pub, f.is_async) + f.name@
                + " (lines "@ + dec(f.start_line as nat) + "-"@ + dec(f.end_line as nat)
                + ")\x1b[0m\n"@,
            None => Seq::empty(),
        },
{
    let mut out: String =
        "\n\x1b[1;31m━━━━━━━━━━━━━━━━━━━━━━━━━━━━━━━━━━━━━━━━\x1b[0m\n\x1b[1;31mError ".to_owned();
    out.append(decimal(n as u64).as_str());
    out.append(": ");
    out.append(e.error_code.as_str());
    out.append("\x1b[0m\n\x1b[90m  ");
    out.append(e.file_path.as_str());
    out.append(":");
    out.append(decimal(e.line as u64).as_str());
    out.append(":");
    out.append(decimal(e.column as u64).as_str());
    out.append("\x1b[0m\n\x1b[33m  ");
    out.append(e.message.as_str());
    out.append("\x1b[0m\n");
    let mut func: String = String::new();
    match &e.function {
        Some(f) => {
            func = "\x1b[36m  → Function: ".to_owned();
            func.append(modifier_text(f.is_pub, f.is_async));
            func.append(f.name.as_str());
            func.append(" (lines ");
            func.append(decimal(f.start_line as u64).as_str());
            func.append("-");
            func.append(decimal(f.end_line as u64).as_str());
            func.append(")\x1b[0m\n");
        },
        None => {},
    }
    out.append(func.as_str());
    out
}

/// How many of the errors lie in a function that was found.
pub open spec fn found_count(es: Seq<ErrorText>) -> nat
    decreases es.len(),
{
    if es.len() == 0 {
        0
    } else {
        found_count(es.drop_last()) + if es.last().function is Some {
            1nat
        } else {
            0nat
        }
    }
}

fn count_found(errors: &[ErrorInfo]) -> (n: usize)
    ensures
        n == found_count(error_texts(errors@)),
        n <= errors@.len(),
{
    let ghost all = error_texts(errors@);
    let mut n: usize = 0;
    let mut i: usize = 0;
    while i < errors.len()
        invariant
            i <= errors@.len(),
            n <= i,
            n == found_count(all.take(i as int)),
        decreases errors@.len() - i,
    {
        assert(all.take(i + 1).drop_last() =~= all.take(i as int));
        assert(all.take(i + 1).last() == errors@[i as int]@);
        if errors[i].function.is_some() {
            n += 1;
        }
        i += 1;
    }
    assert(all.take(i as int) =~= all);
    n
}

/// The statistics of a report with these sizes.
pub fn report_stats(errors: &[ErrorInfo], stats: &TextStats) -> (r: String)
    ensures
        ({
            let es = error_texts(errors@);
            r@
                == "\n\x1b[1;36m━━━━━━━━━━━━━━━━━━━━━━━━━━━━━━━━━━━━━━━━\x1b[0m\n\x1b[1;32m✓ Error Report Statistics:\x1b[0m\n  \x1b[33mTotal errors:\x1b[0m "@
                + dec(es.len()) + "\n  \x1b[32mFunctions found:\x1b[0m "@ + dec(found_count(es))
                + "\n  \x1b[31mFunctions not found:\x1b[0m "@ + dec(
                (es.len() - found_count(es)) as nat,
            ) + "\n  \x1b[33mLines:\x1b[0m "@ + dec(stats.lines as nat)
                + "\n  \x1b[33mWords:\x1b[0m "@ + dec(stats.words as nat)
                + "\n  \x1b[33mChars:\x1b[0m "@ + dec(stats.chars as nat)
                + "\n  \x1b[33mBytes:\x1b[0m "@ + dec(stats.bytes as nat) + "\n"@
        }),
{
    let found: usize = count_found(errors);
    let mut out: String =
        "\n\x1b[1;36m━━━━━━━━━━━━━━━━━━━━━━━━━━━━━━━━━━━━━━━━\x1b[0m\n\x1b[1;32m✓ Error Report Statistics:\x1b[0m\n  \x1b[33mTotal errors:\x1b[0m ".to_owned();
    out.append(decimal(errors.len() as u64).as_str());
    out.append("\n  \x1b[32mFunctions found:\x1b[0m ");
    out.append(decimal(found as u64).as_str());
    out.append("\n  \x1b[31mFunctions not found:\x1b[0m ");
    out.append(decimal((errors.len() - found) as u64).as_str());
    out.append("\n  \x1b[33mLines:\x1b[0m ");
    out.append(decimal(stats.lines as u64).as_str());
    out.append("\n  \x1b[33mWords:\x1b[0m ");
    out.append(decimal(stats.words as u64).as_str());
    out.append("\n  \x1b[33mChars:\x1b[0m ");
    out.append(decimal(stats.chars as u64).as_str());
    out.append("\n  \x1b[33mBytes:\x1b[0m ");
    out.append(decimal(stats.bytes as u64).as_str());
    out.append("\n");
    out
}

} // verus!
