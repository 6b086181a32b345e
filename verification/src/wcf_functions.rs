//! Finding the functions of a source file that a block can replace.

use vstd::prelude::*;
use crate::syntax::{
    fn_head, item_texts, method_head, parse_fn, parse_method, FnHead, FnHeadText, ItemKind,
};
use crate::text::{
    chars_of, find_at, find_from, line_start, line_start_at, newlines, newlines_before, occurs_at,
    opt_text, same, starts_with, string_of, texts, trim, trimmed,
};
use crate::wcf::{
    match_texts, parse_source, parsed_source, parsed_texts, CodeBlockMatch, CodeBlockType,
    MatchText, ParsedItem, ParsedText,
};
use crate::wcf_heads::{at_word_start, find_modifiers_start, modifiers_start, starts_word};

verus! {

/// Where the text of a function begins whose `fn` stands at `p`: where its modifiers begin, or at
/// the start of their line where nothing but white space, an attribute or a comment for
/// documentation stands before them.
pub open spec fn text_start(s: Seq<char>, p: int) -> int {
    let q = modifiers_start(s, p);
    let l = line_start(s, q);
    let t = trimmed(s.subrange(l, q));
    if t.len() == 0 || "#["@.is_prefix_of(t) || "///"@.is_prefix_of(t) || "//!"@.is_prefix_of(t) {
        l
    } else {
        q
    }
}

/// Where the body of a function opens: the first brace from `i` on outside parentheses and
/// brackets, unless a semicolon outside them comes first.
pub open spec fn body_open(s: Seq<char>, i: int, parens: int, brackets: int) -> Option<int>
    decreases s.len() - i,
{
    if i >= s.len() {
        None
    } else if s[i] == '(' {
        body_open(s, i + 1, parens + 1, brackets)
    } else if s[i] == ')' {
        body_open(s, i + 1, parens - 1, brackets)
    } else if s[i] == '[' {
        body_open(s, i + 1, parens, brackets + 1)
    } else if s[i] == ']' {
        body_open(s, i + 1, parens, brackets - 1)
    } else if s[i] == '{' && parens == 0 && brackets == 0 {
        Some(i)
    } else if s[i] == ';' && parens == 0 && brackets == 0 {
        None
    } else {
        body_open(s, i + 1, parens, brackets)
    }
}

/// The position behind the brace that closes the block open at depth `depth`.
pub open spec fn body_close(s: Seq<char>, i: int, depth: int) -> Option<int>
    decreases s.len() - i,
{
    if i >= s.len() {
        None
    } else if s[i] == '{' {
        body_close(s, i + 1, depth + 1)
    } else if s[i] == '}' {
        if depth == 1 {
            Some(i + 1)
        } else {
            body_close(s, i + 1, depth - 1)
        }
    } else {
        body_close(s, i + 1, depth)
    }
}

/// Where the function whose `fn` stands at `p` ends, where it has a body that is closed.
pub open spec fn function_end(s: Seq<char>, p: int) -> Option<int> {
    match body_open(s, p, 0, 0) {
        Some(o) => body_close(s, o, 0),
        None => None,
    }
}

proof fn lemma_body_open(s: Seq<char>, i: int, parens: int, brackets: int)
    ensures
        body_open(s, i, parens, brackets) matches Some(o) ==> i <= o < s.len() && s[o] == '{',
    decreases s.len() - i,
{
    if i < s.len() {
        if s[i] == '(' {
            lemma_body_open(s, i + 1, parens + 1, brackets);
        } else if s[i] == ')' {
            lemma_body_open(s, i + 1, parens - 1, brackets);
        } else if s[i] == '[' {
            lemma_body_open(s, i + 1, parens, brackets + 1);
        } else if s[i] == ']' {
            lemma_body_open(s, i + 1, parens, brackets - 1);
        } else {
            lemma_body_open(s, i + 1, parens, brackets);
        }
    }
}

proof fn lemma_body_close(s: Seq<char>, i: int, depth: int)
    ensures
        body_close(s, i, depth) matches Some(e) ==> i < e <= s.len(),
    decreases s.len() - i,
{
    if i < s.len() {
        if s[i] == '{' {
            lemma_body_close(s, i + 1, depth + 1);
        } else if s[i] == '}' {
            lemma_body_close(s, i + 1, depth - 1);
        } else {
            lemma_body_close(s, i + 1, depth);
        }
    }
}

proof fn lemma_function_end(s: Seq<char>, p: int)
    ensures
        function_end(s, p) matches Some(e) ==> p < e <= s.len(),
{
    lemma_body_open(s, p, 0, 0);
    match body_open(s, p, 0, 0) {
        Some(o) => {
            lemma_body_close(s, o, 0);
        },
        None => {},
    }
}

proof fn lemma_found(s: Seq<char>, p: Seq<char>, i: int)
    ensures
        find_from(s, p, i) matches Some(a) ==> i <= a && a + p.len() <= s.len(),
    decreases s.len() - i + 1,
{
    if i + p.len() <= s.len() && !occurs_at(s, p, i) {
        lemma_found(s, p, i + 1);
    }
}

/// A stretch of a source file: its text, its first and its last line, counted from one.
#[derive(Debug, PartialEq, Eq)]
pub struct FunctionSpan {
    pub text: String,
    pub start_line: usize,
    pub end_line: usize,
}

/// What a `FunctionSpan` holds.
pub struct SpanText {
    pub text: Seq<char>,
    pub start_line: int,
    pub end_line: int,
}

impl View for FunctionSpan {
    type V = SpanText;

    open spec fn view(&self) -> SpanText {
        SpanText {
            text: self.text@,
            start_line: self.start_line as int,
            end_line: self.end_line as int,
        }
    }
}

pub open spec fn spans_text(v: Seq<FunctionSpan>) -> Seq<SpanText> {
    v.map_values(|f: FunctionSpan| f@)
}

/// The stretch from the start of the function whose `fn` stands at `p` to its end `e`.
pub open spec fn span_at(s: Seq<char>, p: int, e: int) -> SpanText {
    SpanText {
        text: s.subrange(text_start(s, p), e),
        start_line: newlines(s.take(text_start(s, p))) as int + 1,
        end_line: newlines(s.take(e - 1)) as int + 1,
    }
}

/// The functions of `s` that begin with `needle`, searched from `pos` on, each behind the one
/// before.
pub open spec fn function_spans(s: Seq<char>, needle: Seq<char>, pos: int) -> Seq<SpanText>
    decreases s.len() - pos,
    when needle.len() > 0
    via function_spans_decreases
{
    match find_from(s, needle, pos) {
        Some(p) => if !starts_word(s, p) || function_end(s, p) is None {
            function_spans(s, needle, p + needle.len())
        } else {
            seq![span_at(s, p, function_end(s, p)->0)] + function_spans(
                s,
                needle,
                function_end(s, p)->0,
            )
        },
        None => Seq::empty(),
    }
}

#[via_fn]
proof fn function_spans_decreases(s: Seq<char>, needle: Seq<char>, pos: int) {
    lemma_found(s, needle, pos);
    match find_from(s, needle, pos) {
        Some(p) => {
            lemma_function_end(s, p);
        },
        None => {},
    }
}

fn find_body(cs: &[char], p: usize) -> (r: Option<usize>)
    ensures
        match r {
            Some(o) => body_open(cs@, p as int, 0, 0) == Some(o as int) && p <= o < cs@.len(),
            None => body_open(cs@, p as int, 0, 0) is None,
        },
{
    let mut parens: i128 = 0;
    let mut brackets: i128 = 0;
    let mut i: usize = p;
    while i < cs.len()
        invariant
            p <= i,
            -(i as int) <= parens <= i,
            -(i as int) <= brackets <= i,
            body_open(cs@, i as int, parens as int, brackets as int) == body_open(
                cs@,
                p as int,
                0,
                0,
            ),
        decreases cs@.len() - i,
    {
        let c: char = cs[i];
        if c == '(' {
            parens += 1;
        } else if c == ')' {
            parens -= 1;
        } else if c == '[' {
            brackets += 1;
        } else if c == ']' {
            brackets -= 1;
        } else if c == '{' && parens == 0 && brackets == 0 {
            return Some(i);
        } else if c == ';' && parens == 0 && brackets == 0 {
            return None;
        }
        i += 1;
    }
    None
}

fn find_close(cs: &[char], o: usize) -> (r: Option<usize>)
    ensures
        match r {
            Some(e) => body_close(cs@, o as int, 0) == Some(e as int) && o < e <= cs@.len(),
            None => body_close(cs@, o as int, 0) is None,
        },
{
    let mut depth: i128 = 0;
    let mut i: usize = o;
    while i < cs.len()
        invariant
            o <= i,
            -(i as int) <= depth <= i,
            body_close(cs@, i as int, depth as int) == body_close(cs@, o as int, 0),
        decreases cs@.len() - i,
    {
        let c: char = cs[i];
        i += 1;
        if c == '{' {
            depth += 1;
        } else if c == '}' {
            depth -= 1;
            if depth == 0 {
                return Some(i);
            }
        }
    }
    None
}

fn find_text_start(cs: &[char], p: usize) -> (r: usize)
    requires
        p <= cs@.len(),
    ensures
        r == text_start(cs@, p as int),
        r <= p,
{
    let q: usize = find_modifiers_start(cs, p);
    let l: usize = line_start_at(cs, q);
    let t: String = trim(string_of(cs, l, q).as_str());
    if t.as_str().is_empty() || starts_with(t.as_str(), "#[") || starts_with(t.as_str(), "///")
        || starts_with(t.as_str(), "//!") {
        l
    } else {
        q
    }
}

/// The functions of a source text that begin with `fn` and a name that begins with `func_name`.
pub fn function_candidates(content: &str, func_name: &str) -> (r: Vec<FunctionSpan>)
    ensures
        spans_text(r@) == function_spans(content@, "fn "@ + func_name@, 0),
        forall|i: int|
            0 <= i < r@.len() ==> (#[trigger] r@[i]).start_line >= 1 && r@[i].end_line >= 1,
{
    let cs: Vec<char> = chars_of(content);
    let mut needle: String = "fn ".to_owned();
    needle.append(func_name);
    let ns: Vec<char> = chars_of(needle.as_str());
    proof {
        reveal_strlit("fn ");
    }
    let mut out: Vec<FunctionSpan> = Vec::new();
    let mut pos: usize = 0;
    loop
        invariant
            pos <= cs@.len(),
            ns@.len() > 0,
            spans_text(out@) + function_spans(cs@, ns@, pos as int) == function_spans(cs@, ns@, 0),
            forall|i: int|
                0 <= i < out@.len() ==> (#[trigger] out@[i]).start_line >= 1 && out@[i].end_line
                    >= 1,
        decreases cs@.len() - pos,
    {
        let ghost before = spans_text(out@);
        let ghost rest = function_spans(cs@, ns@, pos as int);
        let p: usize = match find_at(&cs, &ns, pos) {
            Some(p) => p,
            None => {
                assert(before + rest =~= before);
                return out;
            },
        };
        let n: usize = cs.len();
        let word: bool = at_word_start(&cs, p);
        let end: Option<usize> = match find_body(&cs, p) {
            Some(o) => find_close(&cs, o),
            None => None,
        };
        let mut next: usize = p + ns.len();
        match end {
            Some(e) => if word {
                let start: usize = find_text_start(&cs, p);
                let span: FunctionSpan = FunctionSpan {
                    text: string_of(&cs, start, e),
                    start_line: newlines_before(&cs, start) + 1,
                    end_line: newlines_before(&cs, e - 1) + 1,
                };
                let ghost held = span@;
                assert(held == span_at(cs@, p as int, e as int));
                out.push(span);
                assert(spans_text(out@) =~= before.push(held));
                assert(spans_text(out@) + function_spans(cs@, ns@, e as int) =~= before + rest);
                next = e;
            },
            None => {},
        }
        pos = next;
    }
}

/// The last identifier on a path, or `unknown` where there is none.
pub open spec fn path_label(path: Option<Seq<Seq<char>>>) -> Seq<char> {
    match path {
        Some(p) => if p.len() > 0 {
            p.last()
        } else {
            "unknown"@
        },
        None => "unknown"@,
    }
}

/// The last identifier on a path, or `unknown` where there is none.
pub fn last_segment(path: &Option<Vec<String>>) -> (r: String)
    ensures
        r@ == path_label(
            match *path {
                Some(p) => Some(texts(p@)),
                None => None,
            },
        ),
{
    match path {
        Some(p) => if p.len() > 0 {
            p[p.len() - 1].clone()
        } else {
            "unknown".to_owned()
        },
        None => "unknown".to_owned(),
    }
}

/// Whether a parsed item is an `impl` block with a method.
pub open spec fn has_method(p: ParsedText) -> bool {
    p.item.kind == ItemKind::Impl && (p.block matches Some(b) && exists|i: int|
        0 <= i < b.members.len() && (#[trigger] b.members[i]).kind == ItemKind::Function)
}

/// The type of the first `impl` block, from item `i` on, that has a method.
pub open spec fn first_impl_type(items: Seq<ParsedText>, i: int) -> Option<Seq<char>>
    decreases items.len() - i,
{
    if i >= items.len() {
        None
    } else if has_method(items[i]) {
        Some(path_label(items[i].block->0.type_path))
    } else {
        first_impl_type(items, i + 1)
    }
}

fn holds_method(p: &ParsedItem) -> (r: bool)
    ensures
        r == has_method(p@),
{
    match p.item.kind {
        ItemKind::Impl => match &p.block {
            Some(b) => {
                let ghost ms = item_texts(b.members@);
                let mut i: usize = 0;
                while i < b.members.len()
                    invariant
                        i <= b.members@.len(),
                        forall|j: int| 0 <= j < i ==> (#[trigger] ms[j]).kind != ItemKind::Function,
                    decreases b.members@.len() - i,
                {
                    assert(ms[i as int] == b.members@[i as int]@);
                    if b.members[i].kind == ItemKind::Function {
                        return true;
                    }
                    i += 1;
                }
                false
            },
            None => false,
        },
        _ => false,
    }
}

/// The type that a method on line `line_no` is taken to belong to: that of the first `impl` block
/// with a method; none for a line that counts from zero.
pub fn enclosing_impl_type(items: &[ParsedItem], line_no: usize) -> (r: Option<String>)
    ensures
        (match r {
            Some(t) => Some(t@),
            None => None,
        }) == if line_no == 0 {
            None
        } else {
            first_impl_type(parsed_texts(items@), 0)
        },
{
    if line_no == 0 {
        return None;
    }
    let ghost all = parsed_texts(items@);
    let mut i: usize = 0;
    while i < items.len()
        invariant
            i <= items@.len(),
            first_impl_type(all, i as int) == first_impl_type(all, 0),
        decreases items@.len() - i,
    {
        assert(all[i as int] == items@[i as int]@);
        if holds_method(&items[i]) {
            match &items[i].block {
                Some(b) => {
                    return Some(last_segment(&b.type_path));
                },
                None => {},
            }
        }
        i += 1;
    }
    None
}

/// The match that a stretch of a file is for a function name: a free function of that name, else
/// a method of that name, labelled with its type.
pub open spec fn span_match(
    path: Seq<char>,
    name: Seq<char>,
    span: SpanText,
    top: Option<FnHeadText>,
    method: Option<FnHeadText>,
    impl_type: Option<Seq<char>>,
) -> Option<MatchText> {
    let base = MatchText {
        file_path: path,
        block_name: name,
        block_type: CodeBlockType::Function,
        old_full_block: span.text,
        head: top,
        line_range: Some((span.start_line, span.end_line)),
        context_label: None,
    };
    if top matches Some(h) && h.name == name {
        Some(base)
    } else if method matches Some(h) && h.name == name {
        Some(
            MatchText {
                head: method,
                context_label: Some(
                    "impl "@ + match impl_type {
                        Some(t) => t,
                        None => "unknown"@,
                    },
                ),
                ..base
            },
        )
    } else {
        None
    }
}

pub open spec fn opt_head(h: Option<FnHead>) -> Option<FnHeadText> {
    match h {
        Some(h) => Some(h@),
        None => None,
    }
}

/// The match that a stretch of a file is for a function name, given what it parses as.
pub fn match_function(
    file_path: &str,
    func_name: &str,
    span: &FunctionSpan,
    top: Option<FnHead>,
    method: Option<FnHead>,
    impl_type: Option<String>,
) -> (r: Option<CodeBlockMatch>)
    ensures
        (match r {
            Some(m) => Some(m@),
            None => None,
        }) == span_match(
            file_path@,
            func_name@,
            span@,
            opt_head(top),
            opt_head(method),
            opt_text(impl_type),
        ),
{
    let is_top: bool = match &top {
        Some(h) => same(h.name.as_str(), func_name),
        None => false,
    };
    let is_method: bool = match &method {
        Some(h) => same(h.name.as_str(), func_name),
        None => false,
    };
    if !is_top && !is_method {
        return None;
    }
    let context_label: Option<String> = if is_top {
        None
    } else {
        let mut label: String = "impl ".to_owned();
        match &impl_type {
            Some(t) => {
                label.append(t.as_str());
            },
            None => {
                label.append("unknown");
            },
        }
        Some(label)
    };
    let head: Option<FnHead> = if is_top {
        top
    } else {
        method
    };
    Some(
        CodeBlockMatch {
            file_path: file_path.to_owned(),
            block_name: func_name.to_owned(),
            block_type: CodeBlockType::Function,
            old_full_block: span.text.clone(),
            head,
            line_range: Some((span.start_line, span.end_line)),
            context_label,
        },
    )
}

/// The matches that the stretches of a file are for a function name.
pub open spec fn span_matches(
    path: Seq<char>,
    name: Seq<char>,
    spans: Seq<SpanText>,
    impl_type: Option<Seq<char>>,
) -> Seq<MatchText>
    decreases spans.len(),
{
    if spans.len() == 0 {
        Seq::empty()
    } else {
        let s = spans.last();
        span_matches(path, name, spans.drop_last(), impl_type) + match span_match(
            path,
            name,
            s,
            fn_head(s.text),
            method_head(s.text),
            impl_type,
        ) {
            Some(m) => seq![m],
            None => Seq::empty(),
        }
    }
}

/// The functions called `func_name` of a source file; none where it does not parse.
pub fn find_function_in_file(file_path: &str, content: &str, func_name: &str) -> (r: Option<
    Vec<CodeBlockMatch>,
>)
    ensures
        match parsed_source(content@) {
            Some(items) => r is Some && match_texts(r->0@) == span_matches(
                file_path@,
                func_name@,
                function_spans(content@, "fn "@ + func_name@, 0),
                first_impl_type(items, 0),
            ),
            None => r is None,
        },
{
    let items: Vec<ParsedItem> = match parse_source(content) {
        Some(items) => items,
        None => {
            return None;
        },
    };
    let spans: Vec<FunctionSpan> = function_candidates(content, func_name);
    let ghost all = spans_text(spans@);
    let ghost impl_type = first_impl_type(parsed_texts(items@), 0);
    let mut out: Vec<CodeBlockMatch> = Vec::new();
    let mut i: usize = 0;
    while i < spans.len()
        invariant
            i <= spans@.len(),
            match_texts(out@) == span_matches(
                file_path@,
                func_name@,
                all.take(i as int),
                impl_type,
            ),
        decreases spans@.len() - i,
    {
        let ghost now = all.take(i + 1);
        let ghost before = match_texts(out@);
        assert(now.drop_last() =~= all.take(i as int));
        assert(now.last() == spans@[i as int]@);
        let span: &FunctionSpan = &spans[i];
        let m: Option<CodeBlockMatch> = match_function(
            file_path,
            func_name,
            span,
            parse_fn(span.text.as_str()),
            parse_method(span.text.as_str()),
            enclosing_impl_type(items.as_slice(), span.start_line),
        );
        match m {
            Some(m) => {
                let ghost held = m@;
                out.push(m);
                assert(match_texts(out@) =~= before.push(held));
            },
            None => {},
        }
        assert(match_texts(out@) =~= span_matches(file_path@, func_name@, now, impl_type));
        i += 1;
    }
    assert(all.take(i as int) =~= all);
    Some(out)
}

} // verus!
