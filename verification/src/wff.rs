//! Finding functions, structs and `impl` blocks in source files.

use vstd::prelude::*;
use vstd::utf8::encode_utf8;
use crate::braces::{closing_line, find_block, lemma_closing_line, opens_block};
use crate::common::{calc_stats, word_count, TextStats};
use crate::config::UnifiedConfig;
use crate::text::{
    char_count, chars_of, contains, contains_text, dec, decimal, find_at, find_from, join, joined,
    lines, lines_of, newlines, number, occurs, pad_left, padded_left, parse_usize, same, slice_texts,
    split, split_at_char, starts_with, string_of, strip_prefix, texts, trim, trimmed,
};
use crate::unicode::{alphanumeric, is_alphanumeric};

verus! {

/// The kinds of code blocks that are found.
#[derive(Clone, Copy, Debug, PartialEq, Eq, Structural)]
pub enum CodeBlockType {
    Function,
    Impl,
    Struct,
}

/// A code block of a source text; lines count from one.
#[derive(Debug, PartialEq, Eq)]
pub struct FoundBlock {
    pub name: String,
    pub body: String,
    pub start_line: usize,
    pub end_line: usize,
    pub block_type: CodeBlockType,
    pub is_pub: bool,
    pub is_async: bool,
}

/// What a `FoundBlock` holds.
pub struct BlockText {
    pub name: Seq<char>,
    pub body: Seq<char>,
    pub start_line: int,
    pub end_line: int,
    pub block_type: CodeBlockType,
    pub is_pub: bool,
    pub is_async: bool,
}

impl View for FoundBlock {
    type V = BlockText;

    open spec fn view(&self) -> BlockText {
        BlockText {
            name: self.name@,
            body: self.body@,
            start_line: self.start_line as int,
            end_line: self.end_line as int,
            block_type: self.block_type,
            is_pub: self.is_pub,
            is_async: self.is_async,
        }
    }
}

pub open spec fn block_texts(v: Seq<FoundBlock>) -> Seq<BlockText> {
    v.map_values(|b: FoundBlock| b@)
}

/// The identifier that begins `s`.
pub open spec fn leading_ident(s: Seq<char>) -> Seq<char>
    decreases s.len(),
{
    if s.len() > 0 && (alphanumeric(s[0]) || s[0] == '_') {
        seq![s[0]] + leading_ident(s.drop_first())
    } else {
        Seq::empty()
    }
}

/// The identifier that begins `s`.
pub(crate) fn take_ident(s: &str) -> (r: String)
    ensures
        r@ == leading_ident(s@),
{
    let cs: Vec<char> = chars_of(s);
    let mut out: String = String::new();
    let mut i: usize = 0;
    assert(cs@.skip(0) =~= cs@);
    assert(out@ + leading_ident(cs@) =~= leading_ident(cs@));
    while i < cs.len() && (is_alphanumeric(cs[i]) || cs[i] == '_')
        invariant
            i <= cs@.len(),
            out@ + leading_ident(cs@.skip(i as int)) == leading_ident(cs@),
        decreases cs@.len() - i,
    {
        let ghost now = out@;
        let ghost rest = cs@.skip(i as int);
        assert(rest.drop_first() =~= cs@.skip(i + 1));
        out.push(cs[i]);
        assert(out@ + leading_ident(cs@.skip(i + 1)) =~= now + leading_ident(rest));
        i += 1;
    }
    assert(out@ + leading_ident(cs@.skip(i as int)) =~= out@);
    out
}

/// What stands in `s` between the first `sep` and the next one, or the end.
pub open spec fn second_piece(s: Seq<char>, sep: Seq<char>) -> Seq<char> {
    match find_from(s, sep, 0) {
        Some(a) => {
            let rest = s.skip(a + sep.len());
            match find_from(rest, sep, 0) {
                Some(b) => rest.take(b),
                None => rest,
            }
        },
        None => Seq::empty(),
    }
}

pub(crate) fn take_second_piece(s: &str, sep: &str) -> (r: String)
    ensures
        r@ == second_piece(s@, sep@),
{
    let cs: Vec<char> = chars_of(s);
    let ps: Vec<char> = chars_of(sep);
    match find_at(&cs, &ps, 0) {
        Some(a) => {
            let n: usize = cs.len();
            let rest: String = string_of(&cs, a + ps.len(), n);
            assert(rest@ =~= cs@.skip(a + ps@.len()));
            let rs: Vec<char> = chars_of(rest.as_str());
            match find_at(&rs, &ps, 0) {
                Some(b) => string_of(&rs, 0, b),
                None => rest,
            }
        },
        None => String::new(),
    }
}

/// Whether a line is an attribute.
pub open spec fn is_attribute(line: Seq<char>) -> bool {
    "#["@.is_prefix_of(trimmed(line))
}

fn holds_attribute(line: &str) -> (r: bool)
    ensures
        r == is_attribute(line@),
{
    starts_with(trim(line).as_str(), "#[")
}

/// The first of the attribute lines right before line `i`, or line `i`.
pub open spec fn attributes_start(ls: Seq<Seq<char>>, i: int) -> int
    decreases i,
{
    if i > 0 && is_attribute(ls[i - 1]) {
        attributes_start(ls, i - 1)
    } else {
        i
    }
}

/// The first line from line `i` on that is no attribute.
pub open spec fn attributes_end(ls: Seq<Seq<char>>, i: int) -> int
    decreases ls.len() - i,
{
    if i < ls.len() && is_attribute(ls[i]) {
        attributes_end(ls, i + 1)
    } else {
        i
    }
}

proof fn lemma_attributes_start(ls: Seq<Seq<char>>, i: int)
    requires
        0 <= i <= ls.len(),
    ensures
        0 <= attributes_start(ls, i) <= i,
        forall|m: int| attributes_start(ls, i) <= m < i ==> is_attribute(#[trigger] ls[m]),
    decreases i,
{
    if i > 0 && is_attribute(ls[i - 1]) {
        lemma_attributes_start(ls, i - 1);
    }
}

proof fn lemma_attributes_end(ls: Seq<Seq<char>>, a: int, i: int)
    requires
        0 <= a <= i <= ls.len(),
        forall|m: int| a <= m < i ==> is_attribute(#[trigger] ls[m]),
    ensures
        attributes_end(ls, a) >= i,
        attributes_end(ls, a) <= ls.len(),
    decreases ls.len() - a,
{
    if a < i {
        assert(is_attribute(ls[a]));
        lemma_attributes_end(ls, a + 1, i);
    } else if a < ls.len() && is_attribute(ls[a]) {
        lemma_attributes_end(ls, a + 1, a + 1);
    }
}

fn find_attributes_start(ls: &[String], i: usize) -> (r: usize)
    requires
        i < ls@.len(),
    ensures
        r == attributes_start(texts(ls@), i as int),
        r <= i,
{
    let ghost all = texts(ls@);
    let mut k: usize = i;
    while k > 0
        invariant
            k <= i < ls@.len(),
            attributes_start(all, k as int) == attributes_start(all, i as int),
        decreases k,
    {
        assert(all[k - 1] == ls@[k - 1]@);
        if !holds_attribute(ls[k - 1].as_str()) {
            return k;
        }
        k -= 1;
    }
    k
}

fn find_attributes_end(ls: &[String], i: usize) -> (r: usize)
    requires
        i <= ls@.len(),
    ensures
        r == attributes_end(texts(ls@), i as int),
        i <= r <= ls@.len(),
{
    let ghost all = texts(ls@);
    let mut k: usize = i;
    while k < ls.len()
        invariant
            i <= k <= ls@.len(),
            attributes_end(all, k as int) == attributes_end(all, i as int),
        decreases ls@.len() - k,
    {
        assert(all[k as int] == ls@[k as int]@);
        if !holds_attribute(ls[k].as_str()) {
            return k;
        }
        k += 1;
    }
    k
}

/// The last line, counted from one, of the block that opens on line `i` or later; line `i` itself
/// where none is closed.
pub open spec fn block_last(ls: Seq<Seq<char>>, i: int) -> int {
    match closing_line(ls, i, 0, false, true) {
        Some(j) => j + 1,
        None => i + 1,
    }
}

proof fn lemma_block_last(ls: Seq<Seq<char>>, i: int)
    requires
        0 <= i < ls.len(),
    ensures
        i < block_last(ls, i) <= ls.len(),
{
    lemma_closing_line(ls, i, 0, false, true);
}

/// What a struct is called on its first line, and whether it is public.
pub open spec fn struct_head(line: Seq<char>) -> Option<(bool, Seq<char>)> {
    let t = trimmed(line);
    if "pub struct "@.is_prefix_of(t) {
        Some((true, leading_ident(trimmed(t.skip("pub struct "@.len() as int)))))
    } else if "struct "@.is_prefix_of(t) {
        Some((false, leading_ident(trimmed(t.skip("struct "@.len() as int)))))
    } else {
        None
    }
}

fn read_struct_head(line: &str) -> (r: Option<(bool, String)>)
    ensures
        (match r {
            Some((p, n)) => Some((p, n@)),
            None => None,
        }) == struct_head(line@),
{
    let t: String = trim(line);
    match strip_prefix(t.as_str(), "pub struct ") {
        Some(rest) => Some((true, take_ident(trim(rest.as_str()).as_str()))),
        None => match strip_prefix(t.as_str(), "struct ") {
            Some(rest) => Some((false, take_ident(trim(rest.as_str()).as_str()))),
            None => None,
        },
    }
}

/// The struct whose attributes, if any, begin on line `start`.
pub open spec fn struct_at(ls: Seq<Seq<char>>, start: int) -> Option<BlockText> {
    let s = attributes_end(ls, start);
    if s >= ls.len() {
        None
    } else {
        match struct_head(ls[s]) {
            Some((is_pub, name)) => if name.len() > 0 {
                Some(
                    BlockText {
                        name,
                        body: joined(ls.subrange(start, block_last(ls, s)), "\n"@),
                        start_line: start + 1,
                        end_line: block_last(ls, s),
                        block_type: CodeBlockType::Struct,
                        is_pub,
                        is_async: false,
                    },
                )
            } else {
                None
            },
            None => None,
        }
    }
}

pub open spec fn opt_block(b: Option<FoundBlock>) -> Option<BlockText> {
    match b {
        Some(b) => Some(b@),
        None => None,
    }
}

/// The struct whose attributes, if any, begin on line `start`, counted from zero.
pub fn extract_struct_block(ls: &[String], start: usize) -> (r: Option<FoundBlock>)
    ensures
        opt_block(r) == struct_at(texts(ls@), start as int),
{
    let ghost all = texts(ls@);
    if start >= ls.len() {
        return None;
    }
    let s: usize = find_attributes_end(ls, start);
    if s >= ls.len() {
        return None;
    }
    assert(all[s as int] == ls@[s as int]@);
    match read_struct_head(ls[s].as_str()) {
        Some((is_pub, name)) => {
            if name.as_str().is_empty() {
                return None;
            }
            let end_line: usize = match find_block(ls, s).0 {
                Some(j) => j + 1,
                None => s + 1,
            };
            Some(
                FoundBlock {
                    name,
                    body: join(slice_texts(ls, start, end_line).as_slice(), "\n"),
                    start_line: start + 1,
                    end_line,
                    block_type: CodeBlockType::Struct,
                    is_pub,
                    is_async: false,
                },
            )
        },
        None => None,
    }
}

/// What stands in `s` before the first brace, space or angle bracket.
pub open spec fn before_type_mark(s: Seq<char>) -> Seq<char>
    decreases s.len(),
{
    if s.len() > 0 && s[0] != '{' && s[0] != ' ' && s[0] != '<' {
        seq![s[0]] + before_type_mark(s.drop_first())
    } else {
        Seq::empty()
    }
}

fn take_before_type_mark(s: &str) -> (r: String)
    ensures
        r@ == before_type_mark(s@),
{
    let cs: Vec<char> = chars_of(s);
    let mut out: String = String::new();
    let mut i: usize = 0;
    assert(cs@.skip(0) =~= cs@);
    assert(out@ + before_type_mark(cs@) =~= before_type_mark(cs@));
    while i < cs.len() && cs[i] != '{' && cs[i] != ' ' && cs[i] != '<'
        invariant
            i <= cs@.len(),
            out@ + before_type_mark(cs@.skip(i as int)) == before_type_mark(cs@),
        decreases cs@.len() - i,
    {
        let ghost now = out@;
        let ghost rest = cs@.skip(i as int);
        assert(rest.drop_first() =~= cs@.skip(i + 1));
        out.push(cs[i]);
        assert(out@ + before_type_mark(cs@.skip(i + 1)) =~= now + before_type_mark(rest));
        i += 1;
    }
    assert(out@ + before_type_mark(cs@.skip(i as int)) =~= out@);
    out
}

/// The name under which an `impl` block is listed.
pub open spec fn impl_name(t: Seq<char>) -> Seq<char> {
    let n = trimmed(before_type_mark(t.skip("impl "@.len() as int)));
    if n.len() == 0 {
        "impl block"@
    } else {
        n
    }
}

/// The `impl` block that begins on line `i`.
pub open spec fn impl_at(ls: Seq<Seq<char>>, i: int) -> Option<BlockText> {
    let t = trimmed(ls[i]);
    if "impl "@.is_prefix_of(t) && opens_block(ls, i, 0, false) {
        Some(
            BlockText {
                name: impl_name(t),
                body: joined(ls.subrange(i, block_last(ls, i)), "\n"@),
                start_line: i + 1,
                end_line: block_last(ls, i),
                block_type: CodeBlockType::Impl,
                is_pub: false,
                is_async: false,
            },
        )
    } else {
        None
    }
}

/// The `impl` block that begins on line `i`, counted from zero.
pub fn extract_impl_block(ls: &[String], i: usize) -> (r: Option<FoundBlock>)
    requires
        i < ls@.len(),
    ensures
        opt_block(r) == impl_at(texts(ls@), i as int),
{
    assert(texts(ls@)[i as int] == ls@[i as int]@);
    let t: String = trim(ls[i].as_str());
    let rest: String = match strip_prefix(t.as_str(), "impl ") {
        Some(rest) => rest,
        None => {
            return None;
        },
    };
    let n: String = trim(take_before_type_mark(rest.as_str()).as_str());
    let name: String = if n.as_str().is_empty() {
        "impl block".to_owned()
    } else {
        n
    };
    assert(name@ == impl_name(t@));
    let found: (Option<usize>, bool) = find_block(ls, i);
    if !found.1 {
        return None;
    }
    let end_line: usize = match found.0 {
        Some(j) => j + 1,
        None => i + 1,
    };
    Some(
        FoundBlock {
            name,
            body: join(slice_texts(ls, i, end_line).as_slice(), "\n"),
            start_line: i + 1,
            end_line,
            block_type: CodeBlockType::Impl,
            is_pub: false,
            is_async: false,
        },
    )
}

/// What a function is called on a line, whether it is public and whether it is asynchronous; an
/// empty name where the line has none.
pub open spec fn function_head(line: Seq<char>) -> (Seq<char>, bool, bool) {
    let t = trimmed(line);
    if occurs(t, "pub async fn"@) {
        (leading_ident(trimmed(second_piece(t, "pub async fn"@))), true, true)
    } else if occurs(t, "pub fn"@) {
        (leading_ident(trimmed(second_piece(t, "pub fn"@))), true, false)
    } else if occurs(t, "async fn"@) {
        (leading_ident(trimmed(second_piece(t, "async fn"@))), false, true)
    } else if occurs(t, "fn "@) {
        (
            leading_ident(trimmed(second_piece(t, "fn"@))),
            occurs(t, "pub"@),
            occurs(t, "async"@),
        )
    } else {
        (Seq::empty(), false, false)
    }
}

fn ident_after(t: &str, sep: &str) -> (r: String)
    ensures
        r@ == leading_ident(trimmed(second_piece(t@, sep@))),
{
    let piece: String = take_second_piece(t, sep);
    take_ident(trim(piece.as_str()).as_str())
}

fn read_function_head(line: &str) -> (r: (String, bool, bool))
    ensures
        (r.0@, r.1, r.2) == function_head(line@),
{
    let tr: String = trim(line);
    let t: &str = tr.as_str();
    if contains(t, "pub async fn") {
        (ident_after(t, "pub async fn"), true, true)
    } else if contains(t, "pub fn") {
        (ident_after(t, "pub fn"), true, false)
    } else if contains(t, "async fn") {
        (ident_after(t, "async fn"), false, true)
    } else if contains(t, "fn ") {
        (ident_after(t, "fn"), contains(t, "pub"), contains(t, "async"))
    } else {
        (String::new(), false, false)
    }
}

/// The function that begins on line `i`.
pub open spec fn function_at(ls: Seq<Seq<char>>, i: int) -> Option<BlockText> {
    let head = function_head(ls[i]);
    if head.0.len() > 0 && opens_block(ls, i, 0, false) {
        Some(
            BlockText {
                name: head.0,
                body: joined(ls.subrange(i, block_last(ls, i)), "\n"@),
                start_line: i + 1,
                end_line: block_last(ls, i),
                block_type: CodeBlockType::Function,
                is_pub: head.1,
                is_async: head.2,
            },
        )
    } else {
        None
    }
}

/// The function that begins on line `i`, counted from zero.
pub fn extract_function_block(ls: &[String], i: usize) -> (r: Option<FoundBlock>)
    requires
        i < ls@.len(),
    ensures
        opt_block(r) == function_at(texts(ls@), i as int),
{
    assert(texts(ls@)[i as int] == ls@[i as int]@);
    let (name, is_pub, is_async): (String, bool, bool) = read_function_head(ls[i].as_str());
    if name.as_str().is_empty() {
        return None;
    }
    let found: (Option<usize>, bool) = find_block(ls, i);
    if !found.1 {
        return None;
    }
    let end_line: usize = match found.0 {
        Some(j) => j + 1,
        None => i + 1,
    };
    Some(
        FoundBlock {
            name,
            body: join(slice_texts(ls, i, end_line).as_slice(), "\n"),
            start_line: i + 1,
            end_line,
            block_type: CodeBlockType::Function,
            is_pub,
            is_async,
        },
    )
}

/// The methods on lines `j` up to `end` of an `impl` block: functions that end within it, each
/// behind the one before. Comments are passed over.
pub open spec fn methods_from(ls: Seq<Seq<char>>, j: int, end: int) -> Seq<BlockText>
    decreases end - j,
    when 0 <= j && end <= ls.len()
    via methods_decreases
{
    if j >= end {
        Seq::empty()
    } else {
        let t = trimmed(ls[j]);
        if !"//"@.is_prefix_of(t) && occurs(t, "fn "@) && function_at(ls, j) is Some && function_at(
            ls,
            j,
        )->0.end_line <= end {
            seq![function_at(ls, j)->0] + methods_from(ls, function_at(ls, j)->0.end_line, end)
        } else {
            methods_from(ls, j + 1, end)
        }
    }
}

#[via_fn]
proof fn methods_decreases(ls: Seq<Seq<char>>, j: int, end: int) {
    if j < end {
        lemma_block_last(ls, j);
    }
}

fn find_methods(ls: &[String], start: usize, end: usize) -> (r: Vec<FoundBlock>)
    requires
        start <= end <= ls@.len(),
    ensures
        block_texts(r@) == methods_from(texts(ls@), start as int, end as int),
{
    let ghost all = texts(ls@);
    let mut out: Vec<FoundBlock> = Vec::new();
    let mut j: usize = start;
    assert(block_texts(out@) + methods_from(all, start as int, end as int) =~= methods_from(
        all,
        start as int,
        end as int,
    ));
    while j < end
        invariant
            start <= j <= end <= ls@.len(),
            block_texts(out@) + methods_from(all, j as int, end as int) == methods_from(
                all,
                start as int,
                end as int,
            ),
        decreases end - j,
    {
        let ghost before = block_texts(out@);
        let ghost rest = methods_from(all, j as int, end as int);
        assert(all[j as int] == ls@[j as int]@);
        proof {
            lemma_block_last(all, j as int);
        }
        let t: String = trim(ls[j].as_str());
        let mut next: usize = j + 1;
        if !starts_with(t.as_str(), "//") && contains(t.as_str(), "fn ") {
            match extract_function_block(ls, j) {
                Some(b) => {
                    if b.end_line <= end {
                        next = b.end_line;
                        let ghost held = b@;
                        out.push(b);
                        assert(block_texts(out@) =~= before.push(held));
                        assert(block_texts(out@) + methods_from(all, next as int, end as int)
                            =~= before + rest);
                    }
                },
                None => {},
            }
        }
        j = next;
    }
    assert(block_texts(out@) + methods_from(all, j as int, end as int) =~= block_texts(out@));
    out
}

/// Whether a struct may be declared on a line.
pub open spec fn may_be_struct(t: Seq<char>) -> bool {
    occurs(t, "struct "@) && !occurs(t, "fn "@)
}

/// The blocks from line `i` on: structs with their attributes, `impl` blocks, each followed by its
/// methods, and functions, each behind the one before. Comments are passed over.
pub open spec fn blocks_from(ls: Seq<Seq<char>>, i: int) -> Seq<BlockText>
    decreases ls.len() - i,
    when 0 <= i
    via blocks_decreases
{
    if i >= ls.len() {
        Seq::empty()
    } else {
        let t = trimmed(ls[i]);
        let s = struct_at(ls, attributes_start(ls, i));
        if "//"@.is_prefix_of(t) {
            blocks_from(ls, i + 1)
        } else if may_be_struct(t) && s is Some {
            seq![s->0] + blocks_from(ls, s->0.end_line)
        } else if impl_at(ls, i) is Some {
            seq![impl_at(ls, i)->0] + methods_from(ls, i + 1, impl_at(ls, i)->0.end_line)
                + blocks_from(ls, impl_at(ls, i)->0.end_line)
        } else if occurs(ls[i], "fn "@) && function_at(ls, i) is Some {
            seq![function_at(ls, i)->0] + blocks_from(ls, function_at(ls, i)->0.end_line)
        } else {
            blocks_from(ls, i + 1)
        }
    }
}

proof fn lemma_struct_ends(ls: Seq<Seq<char>>, i: int)
    requires
        0 <= i < ls.len(),
    ensures
        struct_at(ls, attributes_start(ls, i)) matches Some(b) ==> i < b.end_line <= ls.len(),
{
    lemma_attributes_start(ls, i);
    lemma_attributes_end(ls, attributes_start(ls, i), i);
    let s = attributes_end(ls, attributes_start(ls, i));
    if s < ls.len() {
        lemma_block_last(ls, s);
    }
}

#[via_fn]
proof fn blocks_decreases(ls: Seq<Seq<char>>, i: int) {
    if i < ls.len() {
        lemma_struct_ends(ls, i);
        lemma_block_last(ls, i);
    }
}

/// The code blocks of a source text.
pub fn find_blocks(ls: &[String]) -> (r: Vec<FoundBlock>)
    ensures
        block_texts(r@) == blocks_from(texts(ls@), 0),
{
    let ghost all = texts(ls@);
    let mut out: Vec<FoundBlock> = Vec::new();
    let mut i: usize = 0;
    assert(block_texts(out@) + blocks_from(all, 0) =~= blocks_from(all, 0));
    while i < ls.len()
        invariant
            i <= ls@.len(),
            block_texts(out@) + blocks_from(all, i as int) == blocks_from(all, 0),
        decreases ls@.len() - i,
    {
        let ghost before = block_texts(out@);
        let ghost rest = blocks_from(all, i as int);
        assert(all[i as int] == ls@[i as int]@);
        proof {
            lemma_struct_ends(all, i as int);
            lemma_block_last(all, i as int);
        }
        let tr: String = trim(ls[i].as_str());
        let t: &str = tr.as_str();
        let mut found: Option<FoundBlock> = None;
        if !starts_with(t, "//") {
            if contains(t, "struct ") && !contains(t, "fn ") {
                found = extract_struct_block(ls, find_attributes_start(ls, i));
            }
            if found.is_none() {
                found = extract_impl_block(ls, i);
                if found.is_none() && contains(ls[i].as_str(), "fn ") {
                    found = extract_function_block(ls, i);
                }
            }
        }
        let mut next: usize = i + 1;
        match found {
            Some(b) => {
                next = b.end_line;
                let ghost held = b@;
                let is_impl: bool = match b.block_type {
                    CodeBlockType::Impl => true,
                    _ => false,
                };
                out.push(b);
                assert(block_texts(out@) =~= before.push(held));
                if is_impl {
                    let mut methods: Vec<FoundBlock> = find_methods(ls, i + 1, next);
                    let ghost ms = block_texts(methods@);
                    out.append(&mut methods);
                    assert(block_texts(out@) =~= before.push(held) + ms);
                }
                assert(block_texts(out@) + blocks_from(all, next as int) =~= before + rest);
            },
            None => {},
        }
        i = next;
    }
    assert(block_texts(out@) + blocks_from(all, i as int) =~= block_texts(out@));
    out
}

/// A code block and the file that it stands in.
#[derive(Debug, PartialEq, Eq)]
pub struct CodeBlockInfo {
    pub file_path: String,
    pub relative_path: String,
    pub block: FoundBlock,
    pub file_lines: usize,
}

/// The code blocks of a source file.
pub fn find_blocks_in_file(file_path: &str, relative_path: &str, content: &str) -> (r: Vec<
    CodeBlockInfo,
>)
    ensures
        r@.map_values(|b: CodeBlockInfo| b.block@) == blocks_from(lines(content@), 0),
        forall|i: int|
            0 <= i < r@.len() ==> (#[trigger] r@[i]).file_path@ == file_path@
                && r@[i].relative_path@ == relative_path@ && r@[i].file_lines == lines(
                content@,
            ).len(),
{
    let ls: Vec<String> = lines_of(content);
    assert(texts(ls@).len() == ls@.len());
    let file_lines: usize = ls.len();
    let mut found: Vec<FoundBlock> = find_blocks(ls.as_slice());
    let ghost all = block_texts(found@);
    let mut out: Vec<CodeBlockInfo> = Vec::new();
    while found.len() > 0
        invariant
            out@.len() + found@.len() == all.len(),
            block_texts(found@) == all.skip(out@.len() as int),
            out@.map_values(|b: CodeBlockInfo| b.block@) == all.take(out@.len() as int),
            forall|i: int|
                0 <= i < out@.len() ==> (#[trigger] out@[i]).file_path@ == file_path@
                    && out@[i].relative_path@ == relative_path@ && out@[i].file_lines
                    == file_lines,
        decreases found@.len(),
    {
        let ghost k = out@.len() as int;
        let ghost before = out@.map_values(|b: CodeBlockInfo| b.block@);
        let ghost waiting = found@;
        let block: FoundBlock = found.remove(0);
        let ghost held = block@;
        assert(block_texts(waiting)[0] == held);
        assert(all[k] == held);
        out.push(
            CodeBlockInfo {
                file_path: file_path.to_owned(),
                relative_path: relative_path.to_owned(),
                block,
                file_lines,
            },
        );
        assert(out@.map_values(|b: CodeBlockInfo| b.block@) =~= before.push(held));
        assert(out@.map_values(|b: CodeBlockInfo| b.block@) =~= all.take(k + 1));
        assert(block_texts(found@) =~= all.skip(k + 1)) by {
            assert forall|p: int| 0 <= p < found@.len() implies block_texts(found@)[p] == all.skip(
                k + 1,
            )[p] by {
                assert(found@[p] == waiting[p + 1]);
                assert(block_texts(waiting)[p + 1] == all.skip(k)[p + 1]);
            }
        }
    }
    assert(all.take(all.len() as int) =~= all);
    out
}


/// What stands before the name of a block.
pub open spec fn modifier(b: BlockText) -> Seq<char> {
    match b.block_type {
        CodeBlockType::Function => if b.is_pub && b.is_async {
            "pub async "@
        } else if b.is_pub {
            "pub "@
        } else if b.is_async {
            "async "@
        } else {
            ""@
        },
        CodeBlockType::Impl => "impl "@,
        CodeBlockType::Struct => if b.is_pub {
            "pub struct "@
        } else {
            "struct "@
        },
    }
}

/// The sign for a kind of block.
pub open spec fn icon(t: CodeBlockType) -> Seq<char> {
    match t {
        CodeBlockType::Function => "ƒ"@,
        CodeBlockType::Impl => "ℑ"@,
        CodeBlockType::Struct => "Ⓢ"@,
    }
}

/// The name of a kind of block in machine-readable output.
pub open spec fn kind_name(t: CodeBlockType) -> Seq<char> {
    match t {
        CodeBlockType::Function => "Function"@,
        CodeBlockType::Impl => "Impl"@,
        CodeBlockType::Struct => "Struct"@,
    }
}

/// The lines with their numbers, from `start` on, right-aligned in `width` columns.
pub open spec fn numbered_from(ls: Seq<Seq<char>>, start: int, width: nat) -> Seq<Seq<char>> {
    Seq::new(ls.len(), |i: int| padded_left(dec((start + i) as nat), width) + "  "@ + ls[i])
}

/// The body of a block with the numbers of its lines, as wide as the last one.
pub open spec fn numbered_body(b: BlockText) -> Seq<char> {
    joined(
        numbered_from(lines(b.body), b.start_line, dec(b.end_line as nat).len()),
        "\n"@,
    )
}

/// The comment that heads a copied block: its path and name, its lines unless they are numbered,
/// and the time where there is one.
pub open spec fn block_header(
    path: Seq<char>,
    b: BlockText,
    show_line_numbers: bool,
    time: Option<Seq<char>>,
) -> Seq<char> {
    "// "@ + path + " # "@ + b.name + if show_line_numbers {
        Seq::empty()
    } else {
        " # lines "@ + dec(b.start_line as nat) + "-"@ + dec(b.end_line as nat)
    } + match time {
        Some(t) => " # "@ + t,
        None => Seq::empty(),
    } + "\n"@
}

/// The words for a kind of block.
pub open spec fn words_for(t: CodeBlockType) -> Seq<char> {
    match t {
        CodeBlockType::Function => "function"@,
        CodeBlockType::Impl => "impl block"@,
        CodeBlockType::Struct => "struct"@,
    }
}

impl FoundBlock {
    /// What stands before the name of the block.
    pub fn get_modifier_string(&self) -> (r: &'static str)
        ensures
            r@ == modifier(self@),
    {
        match self.block_type {
            CodeBlockType::Function => if self.is_pub && self.is_async {
                "pub async "
            } else if self.is_pub {
                "pub "
            } else if self.is_async {
                "async "
            } else {
                ""
            },
            CodeBlockType::Impl => "impl ",
            CodeBlockType::Struct => if self.is_pub {
                "pub struct "
            } else {
                "struct "
            },
        }
    }

    /// The sign for the kind of the block.
    pub fn get_type_icon(&self) -> (r: &'static str)
        ensures
            r@ == icon(self.block_type),
    {
        match self.block_type {
            CodeBlockType::Function => "ƒ",
            CodeBlockType::Impl => "ℑ",
            CodeBlockType::Struct => "Ⓢ",
        }
    }

    /// The words for the kind of the block.
    pub fn get_type_name(&self) -> (r: &'static str)
        ensures
            r@ == words_for(self.block_type),
    {
        match self.block_type {
            CodeBlockType::Function => "function",
            CodeBlockType::Impl => "impl block",
            CodeBlockType::Struct => "struct",
        }
    }

    fn kind_text(&self) -> (r: &'static str)
        ensures
            r@ == kind_name(self.block_type),
    {
        match self.block_type {
            CodeBlockType::Function => "Function",
            CodeBlockType::Impl => "Impl",
            CodeBlockType::Struct => "Struct",
        }
    }

    /// The body of the block with the numbers of its lines.
    pub fn add_line_numbers_to_body(&self) -> (r: String)
        requires
            self.start_line + lines(self.body@).len() <= usize::MAX,
        ensures
            r@ == numbered_body(self@),
    {
        let ls: Vec<String> = lines_of(self.body.as_str());
        let ghost all = texts(ls@);
        assert(all.len() == ls@.len());
        let width: usize = char_count(decimal(self.end_line as u64).as_str());
        let mut rows: Vec<String> = Vec::new();
        let mut i: usize = 0;
        while i < ls.len()
            invariant
                i <= ls@.len(),
                texts(rows@) == numbered_from(all, self.start_line as int, width as nat).take(
                    i as int,
                ),
            decreases ls@.len() - i,
        {
            let mut row: String = pad_left(decimal((self.start_line + i) as u64).as_str(), width);
            row.append("  ");
            row.append(ls[i].as_str());
            rows.push(row);
            assert(texts(rows@) =~= numbered_from(
                all,
                self.start_line as int,
                width as nat,
            ).take(i + 1));
            i += 1;
        }
        assert(texts(rows@) =~= numbered_from(all, self.start_line as int, width as nat));
        join(rows.as_slice(), "\n")
    }
}

impl CodeBlockInfo {
    /// The entry of the block for an editor's picker.
    pub fn get_telescope_entry(&self) -> (r: String)
        ensures
            r@ == icon(self.block.block_type) + "│"@ + self.block.name@ + "│"@
                + self.relative_path@ + "│"@ + dec(self.block.start_line as nat) + "│"@ + dec(
                self.block.end_line as nat,
            ),
    {
        let mut out: String = self.block.get_type_icon().to_owned();
        out.append("│");
        out.append(self.block.name.as_str());
        out.append("│");
        out.append(self.relative_path.as_str());
        out.append("│");
        out.append(decimal(self.block.start_line as u64).as_str());
        out.append("│");
        out.append(decimal(self.block.end_line as u64).as_str());
        out
    }

    /// The block as it is listed.
    pub open spec fn display(&self) -> Seq<char> {
        icon(self.block.block_type) + " "@ + modifier(self.block@) + " "@ + self.block.name@ + " ("@
            + self.relative_path@ + ": lines "@ + dec(self.block.start_line as nat) + "-"@ + dec(
            self.block.end_line as nat,
        ) + ")"@
    }

    /// The block as it is listed.
    pub fn get_display_string(&self) -> (r: String)
        ensures
            r@ == self.display(),
    {
        let mut out: String = self.block.get_type_icon().to_owned();
        out.append(" ");
        out.append(self.block.get_modifier_string());
        out.append(" ");
        out.append(self.block.name.as_str());
        out.append(" (");
        out.append(self.relative_path.as_str());
        out.append(": lines ");
        out.append(decimal(self.block.start_line as u64).as_str());
        out.append("-");
        out.append(decimal(self.block.end_line as u64).as_str());
        out.append(")");
        out
    }

    /// The comment that heads the copied block; `timestamp` is shown where the configuration asks
    /// for a time.
    pub fn format_header(
        &self,
        config: &UnifiedConfig,
        show_line_numbers: bool,
        timestamp: &str,
    ) -> (r:
        String)
        ensures
            r@ == block_header(
                self.relative_path@,
                self.block@,
                show_line_numbers,
                if config.wff.show_time_in_header {
                    Some(timestamp@)
                } else {
                    None
                },
            ),
    {
        let mut out: String = "// ".to_owned();
        out.append(self.relative_path.as_str());
        out.append(" # ");
        out.append(self.block.name.as_str());
        let mut range: String = String::new();
        if !show_line_numbers {
            range = " # lines ".to_owned();
            range.append(decimal(self.block.start_line as u64).as_str());
            range.append("-");
            range.append(decimal(self.block.end_line as u64).as_str());
        }
        out.append(range.as_str());
        let mut time: String = String::new();
        if config.wff.show_time_in_header {
            time = " # ".to_owned();
            time.append(timestamp);
        }
        out.append(time.as_str());
        out.append("\n");
        out
    }

    /// What is copied: the header, then the body, with numbers where they are asked for.
    pub fn to_clipboard_payload(
        &self,
        config: &UnifiedConfig,
        show_line_numbers: bool,
        timestamp: &str,
    ) -> (r: String)
        requires
            self.block.start_line + lines(self.block.body@).len() <= usize::MAX,
        ensures
            r@ == block_header(
                self.relative_path@,
                self.block@,
                show_line_numbers,
                if config.wff.show_time_in_header {
                    Some(timestamp@)
                } else {
                    None
                },
            ) + if show_line_numbers {
                numbered_body(self.block@)
            } else {
                self.block.body@
            },
    {
        let mut out: String = self.format_header(config, show_line_numbers, timestamp);
        if show_line_numbers {
            out.append(self.block.add_line_numbers_to_body().as_str());
        } else {
            out.append(self.block.body.as_str());
        }
        out
    }

    /// The block as a line for an editor; names and paths are not escaped.
    pub fn to_json(&self) -> (r: String)
        ensures
            r@ == "{\"type\":\""@ + kind_name(self.block.block_type) + "\",\"name\":\""@
                + self.block.name@ + "\",\"path\":\""@ + self.relative_path@
                + "\",\"line\":"@ + dec(self.block.start_line as nat) + ",\"end_line\":"@ + dec(
                self.block.end_line as nat,
            ) + "}"@,
    {
        let mut out: String = "{\"type\":\"".to_owned();
        out.append(self.block.kind_text());
        out.append("\",\"name\":\"");
        out.append(self.block.name.as_str());
        out.append("\",\"path\":\"");
        out.append(self.relative_path.as_str());
        out.append("\",\"line\":");
        out.append(decimal(self.block.start_line as u64).as_str());
        out.append(",\"end_line\":");
        out.append(decimal(self.block.end_line as u64).as_str());
        out.append("}");
        out
    }

    /// What is told of a block that was copied: where it stands, how large it is, and what part of
    /// its file it makes up.
    pub fn print_stats(&self, percentage: &str) -> (r: String)
        ensures
            ({
                let body = self.block.body@;
                r@ == "\n\x1b[36mfile\x1b[0m "@ + self.relative_path@ + "  \x1b[36m"@ + words_for(
                    self.block.block_type,
                ) + "\x1b[0m "@ + modifier(self.block@) + self.block.name@
                    + "\n  \x1b[33mlines\x1b[0m "@ + dec(newlines(body)) + " ("@ + percentage@
                    + "% of file)  \x1b[33mwords\x1b[0m "@ + dec(word_count(body))
                    + "  \x1b[33mchars\x1b[0m "@ + dec(body.len()) + "  \x1b[33mbytes\x1b[0m "@ + dec(
                    encode_utf8(body).len(),
                ) + "\n  \x1b[33mline range\x1b[0m "@ + dec(self.block.start_line as nat) + "-"@
                    + dec(self.block.end_line as nat) + "\n"@
            }),
    {
        let s: TextStats = calc_stats(self.block.body.as_str());
        let mut out: String = "\n\x1b[36mfile\x1b[0m ".to_owned();
        out.append(self.relative_path.as_str());
        out.append("  \x1b[36m");
        out.append(self.block.get_type_name());
        out.append("\x1b[0m ");
        out.append(self.block.get_modifier_string());
        out.append(self.block.name.as_str());
        out.append("\n  \x1b[33mlines\x1b[0m ");
        out.append(decimal(s.lines as u64).as_str());
        out.append(" (");
        out.append(percentage);
        out.append("% of file)  \x1b[33mwords\x1b[0m ");
        out.append(decimal(s.words as u64).as_str());
        out.append("  \x1b[33mchars\x1b[0m ");
        out.append(decimal(s.chars as u64).as_str());
        out.append("  \x1b[33mbytes\x1b[0m ");
        out.append(decimal(s.bytes as u64).as_str());
        out.append("\n  \x1b[33mline range\x1b[0m ");
        out.append(decimal(self.block.start_line as u64).as_str());
        out.append("-");
        out.append(decimal(self.block.end_line as u64).as_str());
        out.append("\n");
        out
    }

    /// The block as entry number `n` of the list from which one is chosen.
    pub open spec fn preview(&self, n: nat) -> Seq<char> {
        padded_left(dec(n), 3) + " │ "@ + icon(self.block.block_type) + " "@ + self.block.name@
            + " │ "@ + self.relative_path@ + " │ "@ + dec(self.block.start_line as nat) + "-"@ + dec(
            self.block.end_line as nat,
        )
    }

    fn preview_line(&self, n: usize) -> (r: String)
        ensures
            r@ == self.preview(n as nat),
    {
        let mut out: String = pad_left(decimal(n as u64).as_str(), 3);
        out.append(" │ ");
        out.append(self.block.get_type_icon());
        out.append(" ");
        out.append(self.block.name.as_str());
        out.append(" │ ");
        out.append(self.relative_path.as_str());
        out.append(" │ ");
        out.append(decimal(self.block.start_line as u64).as_str());
        out.append("-");
        out.append(decimal(self.block.end_line as u64).as_str());
        out
    }
}

/// Which time heads a copied block: that of the file, where it is known and configured, else the
/// present one.
pub fn uses_file_time(config: &UnifiedConfig, has_file_time: bool) -> (r: bool)
    ensures
        r == (config.wcn.use_file_modification_time && has_file_time),
{
    config.wcn.use_file_modification_time && has_file_time
}

/// The entries of the list from which a block is chosen, numbered from one.
pub fn build_preview_lines(blocks: &[CodeBlockInfo]) -> (r: Vec<String>)
    ensures
        r@.len() == blocks@.len(),
        forall|i: int|
            0 <= i < r@.len() ==> (#[trigger] r@[i])@ == blocks@[i].preview((i + 1) as nat),
{
    let mut out: Vec<String> = Vec::new();
    let mut i: usize = 0;
    while i < blocks.len()
        invariant
            i <= blocks@.len(),
            out@.len() == i,
            forall|k: int|
                0 <= k < i ==> (#[trigger] out@[k])@ == blocks@[k].preview((k + 1) as nat),
        decreases blocks@.len() - i,
    {
        out.push(blocks[i].preview_line(i + 1));
        i += 1;
    }
    out
}

/// The place in a list of `count`, counted from zero, that a chosen entry begins with; none where
/// it begins with no number of the list.
pub open spec fn chosen(output: Seq<char>, count: nat) -> Option<nat> {
    let first = if lines(output).len() > 0 {
        lines(output)[0]
    } else {
        Seq::empty()
    };
    match number(trimmed(split(first, '│')[0])) {
        Some(n) => if 1 <= n <= count {
            Some((n - 1) as nat)
        } else {
            None
        },
        None => None,
    }
}

/// The block that was chosen from a list of `count`.
pub fn chosen_block(output: &str, count: usize) -> (r: Option<usize>)
    ensures
        chosen(output@, count as nat) == match r {
            Some(i) => Some(i as nat),
            None => None,
        },
{
    let ls: Vec<String> = lines_of(output);
    let ghost all = texts(ls@);
    let mut first: String = String::new();
    if ls.len() > 0 {
        assert(all[0] == ls@[0]@);
        first = ls[0].clone();
    }
    assert(first@ =~= if all.len() > 0 {
        all[0]
    } else {
        Seq::empty()
    });
    let parts: Vec<String> = split_at_char(first.as_str(), '│');
    proof {
        assert(texts(parts@).len() == parts@.len());
        assert(split(first@, '│').len() > 0);
        assert(texts(parts@)[0] == parts@[0]@);
    }
    match parse_usize(trim(parts[0].as_str()).as_str()) {
        Some(n) => if n == 0 || n > count {
            None
        } else {
            Some(n - 1)
        },
        None => None,
    }
}

/// The first blocks of a list, one on a line.
pub open spec fn listed(blocks: Seq<CodeBlockInfo>) -> Seq<char>
    decreases blocks.len(),
{
    if blocks.len() == 0 {
        Seq::empty()
    } else {
        listed(blocks.drop_last()) + "  • "@ + blocks.last().display() + "\n"@
    }
}

/// What is shown of the blocks that were found: how many, and the first ten.
pub fn block_summary(blocks: &[CodeBlockInfo]) -> (r: String)
    ensures
        r@ == "✓ Found "@ + dec(blocks@.len()) + " code block(s)\n"@ + (if blocks@.len() > 10 {
            listed(blocks@.take(10)) + "  ... and "@ + dec((blocks@.len() - 10) as nat)
                + " more\n"@
        } else {
            listed(blocks@)
        }),
{
    let n: usize = if blocks.len() > 10 {
        10
    } else {
        blocks.len()
    };
    let mut rows: String = String::new();
    let mut i: usize = 0;
    while i < n
        invariant
            i <= n <= blocks@.len(),
            rows@ == listed(blocks@.take(i as int)),
        decreases n - i,
    {
        assert(blocks@.take(i + 1).drop_last() =~= blocks@.take(i as int));
        rows.append("  • ");
        rows.append(blocks[i].get_display_string().as_str());
        rows.append("\n");
        i += 1;
    }
    if blocks.len() > 10 {
        rows.append("  ... and ");
        rows.append(decimal((blocks.len() - 10) as u64).as_str());
        rows.append(" more\n");
    } else {
        assert(blocks@.take(i as int) =~= blocks@);
    }
    let mut out: String = "✓ Found ".to_owned();
    out.append(decimal(blocks.len() as u64).as_str());
    out.append(" code block(s)\n");
    out.append(rows.as_str());
    out
}

/// Whether an argument stands among the arguments from place `from` on.
/// Whether one of the arguments behind the program's name is `arg`.
pub open spec fn is_given(args: Seq<Seq<char>>, arg: Seq<char>) -> bool {
    exists|i: int| 0 < i < args.len() && #[trigger] args[i] == arg
}

fn has_arg(args: &[String], arg: &str) -> (r: bool)
    ensures
        r == is_given(texts(args@), arg@),
{
    let ghost all = texts(args@);
    let mut i: usize = 1;
    while i < args.len()
        invariant
            0 < i,
            all == texts(args@),
            forall|j: int| 0 < j < i && j < args@.len() ==> #[trigger] all[j] != arg@,
        decreases args@.len() - i,
    {
        assert(all[i as int] == args@[i as int]@);
        if same(args[i].as_str(), arg) {
            return true;
        }
        i += 1;
    }
    false
}

/// Whether lines are numbered: as configured, or the other way round where `-n` is given. The
/// first argument is the program's name.
pub fn wants_line_numbers(config: &UnifiedConfig, args: &[String]) -> (r: bool)
    ensures
        r == (config.wff.show_line_numbers != is_given(texts(args@), "-n"@)),
{
    config.wff.show_line_numbers != has_arg(args, "-n")
}

/// Whether the output is for an editor.
pub fn wants_telescope(args: &[String]) -> (r: bool)
    ensures
        r == (texts(args@).contains("--telescope"@) || texts(args@).contains("-t"@)),
{
    contains_text(args, "--telescope") || contains_text(args, "-t")
}

/// The first argument from place `i` on that is no option.
pub open spec fn first_plain(args: Seq<Seq<char>>, i: int) -> Option<int>
    decreases args.len() - i,
{
    if i >= args.len() {
        None
    } else if !"-"@.is_prefix_of(args[i]) {
        Some(i)
    } else {
        first_plain(args, i + 1)
    }
}

/// Which argument names the directory to search: the first that is no option, unless the last one
/// is a known option; none stands for the current directory.
pub fn target_arg(args: &[String]) -> (r: Option<usize>)
    ensures
        (match r {
            Some(i) => Some(i as int),
            None => None,
        }) == ({
            let a = texts(args@);
            if a.len() <= 1 || a.last() == "-n"@ || a.last() == "--telescope"@ || a.last()
                == "-t"@ {
                None
            } else {
                first_plain(a, 1)
            }
        }),
        r matches Some(i) ==> i < args@.len(),
{
    let ghost a = texts(args@);
    if args.len() <= 1 {
        return None;
    }
    let n: usize = args.len();
    assert(a.last() == args@[n - 1]@);
    let last: &str = args[n - 1].as_str();
    if same(last, "-n") || same(last, "--telescope") || same(last, "-t") {
        return None;
    }
    let mut i: usize = 1;
    while i < args.len()
        invariant
            1 <= i <= args@.len(),
            first_plain(a, i as int) == first_plain(a, 1),
        decreases args@.len() - i,
    {
        assert(a[i as int] == args@[i as int]@);
        if !starts_with(args[i].as_str(), "-") {
            return Some(i);
        }
        i += 1;
    }
    None
}

/// Every block that is found has a name and lies within the text, its first line not behind its
/// last.
pub proof fn law_blocks_lie_within(ls: Seq<Seq<char>>, i: int)
    requires
        0 <= i,
    ensures
        forall|k: int|
            0 <= k < blocks_from(ls, i).len() ==> {
                let b = #[trigger] blocks_from(ls, i)[k];
                b.name.len() > 0 && 1 <= b.start_line <= b.end_line <= ls.len()
            },
    decreases ls.len() - i,
{
    if i < ls.len() {
        let t = trimmed(ls[i]);
        let a = attributes_start(ls, i);
        let s = struct_at(ls, a);
        lemma_struct_ends(ls, i);
        lemma_block_last(ls, i);
        lemma_attributes_start(ls, i);
        reveal_strlit("impl block");
        if "//"@.is_prefix_of(t) {
            law_blocks_lie_within(ls, i + 1);
        } else if may_be_struct(t) && s is Some {
            law_blocks_lie_within(ls, s->0.end_line);
        } else if impl_at(ls, i) is Some {
            law_methods_lie_within(ls, i + 1, impl_at(ls, i)->0.end_line);
            law_blocks_lie_within(ls, impl_at(ls, i)->0.end_line);
        } else if occurs(ls[i], "fn "@) && function_at(ls, i) is Some {
            law_blocks_lie_within(ls, function_at(ls, i)->0.end_line);
        } else {
            law_blocks_lie_within(ls, i + 1);
        }
    }
}

/// Every method of an `impl` block has a name and lies within the block.
pub proof fn law_methods_lie_within(ls: Seq<Seq<char>>, j: int, end: int)
    requires
        0 <= j,
        end <= ls.len(),
    ensures
        forall|k: int|
            0 <= k < methods_from(ls, j, end).len() ==> {
                let b = #[trigger] methods_from(ls, j, end)[k];
                b.name.len() > 0 && j < b.start_line <= b.end_line <= end
            },
    decreases end - j,
{
    if j < end {
        lemma_block_last(ls, j);
        let t = trimmed(ls[j]);
        if !"//"@.is_prefix_of(t) && occurs(t, "fn "@) && function_at(ls, j) is Some && function_at(
            ls,
            j,
        )->0.end_line <= end {
            law_methods_lie_within(ls, function_at(ls, j)->0.end_line, end);
        } else {
            law_methods_lie_within(ls, j + 1, end);
        }
    }
}

} // verus!
