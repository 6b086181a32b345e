//! Replacing code blocks of source files by blocks from the clipboard.

use vstd::prelude::*;
use crate::bytes::{
    byte_len, char_index, is_boundary, lemma_byte_order, lemma_byte_step, width,
};
use crate::braces::Braces;
use crate::syntax::{
    enum_name, fn_head, impl_block, item_texts, parse_enum, parse_fn, parse_impl, parse_items,
    parse_struct, source_items, struct_name, FnHead, FnHeadText, ImplBlock, ImplText, ItemKind,
    ItemText, SourceItem,
};
use crate::text::{
    chars_of, find_at, find_from, join, joined, lemma_lines_len, lines, lines_of, newlines,
    newlines_before, occurs_at, same, same_texts, slice_texts, string_of, texts, trim, trimmed,
};

verus! {

/// The kinds of code blocks that can be replaced.
#[derive(Clone, Copy, Debug, PartialEq, Eq, Structural)]
pub enum CodeBlockType {
    Function,
    Struct,
    Enum,
}

/// A block: its name, its kind and its text.
pub type Block = (String, CodeBlockType, String);

/// What a block holds.
pub type BlockText = (Seq<char>, CodeBlockType, Seq<char>);

pub open spec fn block_text(b: Block) -> BlockText {
    (b.0@, b.1, b.2@)
}

/// What a list of blocks holds.
pub open spec fn block_texts(v: Seq<Block>) -> Seq<BlockText> {
    v.map_values(|b: Block| block_text(b))
}

/// A top-level item, with its members where it is an `impl` block.
#[derive(Debug, PartialEq, Eq)]
pub struct ParsedItem {
    pub item: SourceItem,
    pub block: Option<ImplBlock>,
}

/// What a `ParsedItem` holds.
pub struct ParsedText {
    pub item: ItemText,
    pub block: Option<ImplText>,
}

impl View for ParsedItem {
    type V = ParsedText;

    open spec fn view(&self) -> ParsedText {
        ParsedText {
            item: self.item@,
            block: match self.block {
                Some(b) => Some(b@),
                None => None,
            },
        }
    }
}

pub open spec fn parsed_texts(v: Seq<ParsedItem>) -> Seq<ParsedText> {
    v.map_values(|p: ParsedItem| p@)
}

/// The items of a source text, `impl` blocks with their members; none where it does not parse.
pub open spec fn parsed_source(content: Seq<char>) -> Option<Seq<ParsedText>> {
    match source_items(content) {
        Some(items) => Some(
            Seq::new(
                items.len(),
                |i: int|
                    ParsedText {
                        item: items[i],
                        block: if items[i].kind == ItemKind::Impl {
                            impl_block(content, i as nat)
                        } else {
                            None
                        },
                    },
            ),
        ),
        None => None,
    }
}

/// The items of a source text.
pub fn parse_source(content: &str) -> (r: Option<Vec<ParsedItem>>)
    ensures
        parsed_source(content@) == match r {
            Some(v) => Some(parsed_texts(v@)),
            None => None,
        },
{
    let items: Vec<SourceItem> = match parse_items(content) {
        Some(items) => items,
        None => {
            return None;
        },
    };
    let ghost all = item_texts(items@);
    let mut out: Vec<ParsedItem> = Vec::new();
    let mut i: usize = 0;
    while i < items.len()
        invariant
            i <= items@.len(),
            out@.len() == i,
            forall|k: int| 0 <= k < i ==> (#[trigger] out@[k])@ == parsed_source(content@)->0[k],
        decreases items@.len() - i,
    {
        assert(all[i as int] == items@[i as int]@);
        let block: Option<ImplBlock> = match items[i].kind {
            ItemKind::Impl => parse_impl(content, i),
            _ => None,
        };
        out.push(ParsedItem { item: items[i].copy(), block });
        i += 1;
    }
    assert(parsed_texts(out@) =~= parsed_source(content@)->0);
    Some(out)
}

/// The functions among the members of an `impl` block, as blocks.
pub open spec fn method_blocks(members: Seq<ItemText>) -> Seq<BlockText>
    decreases members.len(),
{
    if members.len() == 0 {
        Seq::empty()
    } else {
        let m = members.last();
        method_blocks(members.drop_last()) + if m.kind == ItemKind::Function {
            seq![(m.name, CodeBlockType::Function, m.tokens)]
        } else {
            Seq::empty()
        }
    }
}

/// The blocks that one item gives.
pub open spec fn item_blocks(p: ParsedText) -> Seq<BlockText> {
    match p.item.kind {
        ItemKind::Function => seq![(p.item.name, CodeBlockType::Function, p.item.tokens)],
        ItemKind::Struct => seq![(p.item.name, CodeBlockType::Struct, p.item.tokens)],
        ItemKind::Enum => seq![(p.item.name, CodeBlockType::Enum, p.item.tokens)],
        ItemKind::Impl => match p.block {
            Some(b) => method_blocks(b.members),
            None => Seq::empty(),
        },
        ItemKind::Other => Seq::empty(),
    }
}

/// The blocks of a parsed source text, in order.
pub open spec fn source_blocks(items: Seq<ParsedText>) -> Seq<BlockText>
    decreases items.len(),
{
    if items.len() == 0 {
        Seq::empty()
    } else {
        source_blocks(items.drop_last()) + item_blocks(items.last())
    }
}

/// The blocks of a parsed source text: functions, structs, enums and the methods of `impl`
/// blocks.
pub fn blocks_of_items(items: &[ParsedItem]) -> (r: Vec<Block>)
    ensures
        block_texts(r@) == source_blocks(parsed_texts(items@)),
{
    let mut out: Vec<Block> = Vec::new();
    let mut i: usize = 0;
    while i < items.len()
        invariant
            i <= items@.len(),
            block_texts(out@) == source_blocks(parsed_texts(items@).take(i as int)),
        decreases items@.len() - i,
    {
        let ghost now = parsed_texts(items@).take(i + 1);
        let ghost before = block_texts(out@);
        assert(now.drop_last() =~= parsed_texts(items@).take(i as int));
        assert(now.last() == items@[i as int]@);
        let p: &ParsedItem = &items[i];
        match p.item.kind {
            ItemKind::Function => {
                out.push((p.item.name.clone(), CodeBlockType::Function, p.item.tokens.clone()));
            },
            ItemKind::Struct => {
                out.push((p.item.name.clone(), CodeBlockType::Struct, p.item.tokens.clone()));
            },
            ItemKind::Enum => {
                out.push((p.item.name.clone(), CodeBlockType::Enum, p.item.tokens.clone()));
            },
            ItemKind::Impl => match &p.block {
                Some(b) => {
                    let mut methods: Vec<Block> = methods_of(b.members.as_slice());
                    out.append(&mut methods);
                },
                None => {},
            },
            ItemKind::Other => {},
        }
        assert(block_texts(out@) =~= before + item_blocks(now.last()));
        i += 1;
    }
    assert(parsed_texts(items@).take(i as int) =~= parsed_texts(items@));
    out
}

fn methods_of(members: &[SourceItem]) -> (r: Vec<Block>)
    ensures
        block_texts(r@) == method_blocks(item_texts(members@)),
{
    let ghost all = item_texts(members@);
    let mut out: Vec<Block> = Vec::new();
    let mut k: usize = 0;
    while k < members.len()
        invariant
            k <= members@.len(),
            block_texts(out@) == method_blocks(all.take(k as int)),
        decreases members@.len() - k,
    {
        let ghost now = all.take(k + 1);
        assert(now.drop_last() =~= all.take(k as int));
        assert(now.last() == members@[k as int]@);
        if members[k].kind == ItemKind::Function {
            out.push(
                (members[k].name.clone(), CodeBlockType::Function, members[k].tokens.clone()),
            );
        }
        assert(block_texts(out@) =~= method_blocks(now));
        k += 1;
    }
    assert(all.take(k as int) =~= all);
    out
}

/// Where the first block opened in `s` at `i` or later ends: the position behind its closing
/// brace. `depth` braces are open at `i`.
pub open spec fn block_end(s: Seq<char>, i: int, depth: int, opened: bool) -> Option<int>
    decreases s.len() - i,
{
    if i >= s.len() {
        None
    } else if s[i] == '{' {
        block_end(s, i + 1, depth + 1, true)
    } else if s[i] == '}' {
        if opened && depth == 1 {
            Some(i + 1)
        } else {
            block_end(s, i + 1, depth - 1, opened)
        }
    } else {
        block_end(s, i + 1, depth, opened)
    }
}

/// Where the first block that opens at `start` or later ends, and whether it does; positions
/// count bytes.
pub fn find_block_end(content: &str, start: usize) -> (r: (usize, bool))
    requires
        is_boundary(content@, start as int),
    ensures
        forall|k: int|
            0 <= k <= content@.len() && #[trigger] byte_len(content@.take(k)) == start ==> (
            match block_end(content@, k, 0, false) {
                Some(e) => r.1 && r.0 == byte_len(content@.take(e)) && k < e <= content@.len(),
                None => r == (start, false),
            }),
{
    let cs: Vec<char> = chars_of(content);
    let size: usize = content.as_bytes().len();
    assert(size == byte_len(cs@));
    let from: usize = match char_index(&cs, start) {
        Some(k) => k,
        None => {
            return (start, false);
        },
    };
    proof {
        assert forall|k: int| 0 <= k <= cs@.len() && #[trigger] byte_len(cs@.take(k)) == start implies k
            == from by {
            if k < from {
                lemma_byte_step(cs@, k);
                lemma_byte_order(cs@, k + 1, from as int);
            }
            if from < k {
                lemma_byte_step(cs@, from as int);
                lemma_byte_order(cs@, from + 1, k);
            }
        }
    }
    match block_end_at(&cs, from) {
        Some(e) => {
            let mut at: usize = start;
            let mut k: usize = from;
            assert(cs@.take(cs@.len() as int) =~= cs@);
            while k < e
                invariant
                    from <= k <= e <= cs@.len(),
                    at == byte_len(cs@.take(k as int)),
                decreases e - k,
            {
                proof {
                    lemma_byte_step(cs@, k as int);
                    lemma_byte_order(cs@, k + 1, cs@.len() as int);
                }
                at += width(cs[k]);
                k += 1;
            }
            (at, true)
        },
        None => (start, false),
    }
}

fn block_end_at(cs: &[char], start: usize) -> (r: Option<usize>)
    ensures
        match r {
            Some(e) => block_end(cs@, start as int, 0, false) == Some(e as int) && start < e
                <= cs@.len(),
            None => block_end(cs@, start as int, 0, false) is None,
        },
{
    let mut depth: i128 = 0;
    let mut opened: bool = false;
    let mut i: usize = start;
    while i < cs.len()
        invariant
            start <= i,
            -(i as int) <= depth <= i,
            block_end(cs@, i as int, depth as int, opened) == block_end(
                cs@,
                start as int,
                0,
                false,
            ),
        decreases cs@.len() - i,
    {
        let c: char = cs[i];
        i += 1;
        if c == '{' {
            depth += 1;
            opened = true;
        } else if c == '}' {
            depth -= 1;
            if opened && depth == 0 {
                return Some(i);
            }
        }
    }
    None
}

/// The texts that begin with `keyword` and reach to the end of the first block opened behind it,
/// searched from position `pos`, each behind the one before.
pub open spec fn candidates(s: Seq<char>, keyword: Seq<char>, pos: int) -> Seq<Seq<char>>
    decreases s.len() - pos,
    via candidates_decreases
{
    match find_from(s, keyword, pos) {
        Some(a) => match block_end(s, a, 0, false) {
            Some(e) => seq![s.subrange(a, e)] + candidates(s, keyword, e),
            None => Seq::empty(),
        },
        None => Seq::empty(),
    }
}

#[via_fn]
proof fn candidates_decreases(s: Seq<char>, keyword: Seq<char>, pos: int) {
    lemma_find_from(s, keyword, pos);
    match find_from(s, keyword, pos) {
        Some(a) => {
            lemma_block_end(s, a, 0, false);
        },
        None => {},
    }
}

proof fn lemma_find_from(s: Seq<char>, p: Seq<char>, i: int)
    ensures
        find_from(s, p, i) matches Some(a) ==> i <= a && a + p.len() <= s.len(),
    decreases s.len() - i + 1,
{
    if i + p.len() <= s.len() && !occurs_at(s, p, i) {
        lemma_find_from(s, p, i + 1);
    }
}

proof fn lemma_block_end(s: Seq<char>, i: int, depth: int, opened: bool)
    ensures
        block_end(s, i, depth, opened) matches Some(e) ==> i < e <= s.len(),
    decreases s.len() - i,
{
    if i < s.len() {
        if s[i] == '{' {
            lemma_block_end(s, i + 1, depth + 1, true);
        } else if s[i] == '}' {
            lemma_block_end(s, i + 1, depth - 1, opened);
        } else {
            lemma_block_end(s, i + 1, depth, opened);
        }
    }
}

/// The texts of `content` that begin with `keyword` and end with the block that follows.
pub fn block_candidates(content: &str, keyword: &str) -> (r: Vec<String>)
    ensures
        texts(r@) == candidates(content@, keyword@, 0),
{
    let cs: Vec<char> = chars_of(content);
    let ks: Vec<char> = chars_of(keyword);
    let mut out: Vec<String> = Vec::new();
    let mut pos: usize = 0;
    loop
        invariant
            pos <= cs@.len(),
            texts(out@) + candidates(cs@, ks@, pos as int) == candidates(cs@, ks@, 0),
        decreases cs@.len() - pos,
    {
        let ghost before = texts(out@);
        let ghost rest = candidates(cs@, ks@, pos as int);
        let a: usize = match find_at(&cs, &ks, pos) {
            Some(a) => a,
            None => {
                assert(before + rest =~= before);
                return out;
            },
        };
        let e: usize = match block_end_at(&cs, a) {
            Some(e) => e,
            None => {
                assert(before + rest =~= before);
                return out;
            },
        };
        out.push(string_of(&cs, a, e));
        assert(texts(out@) =~= before.push(cs@.subrange(a as int, e as int)));
        assert(texts(out@) + candidates(cs@, ks@, e as int) =~= before + rest);
        pos = e;
    }
}

/// The name of the block of kind `kind` that a text is, where it parses as one.
pub open spec fn parsed_name(kind: CodeBlockType, full: Seq<char>) -> Option<Seq<char>> {
    match kind {
        CodeBlockType::Function => match fn_head(full) {
            Some(h) => Some(h.name),
            None => None,
        },
        CodeBlockType::Struct => struct_name(full),
        CodeBlockType::Enum => enum_name(full),
    }
}

/// Those of the texts that parse as a block of kind `kind`, with their names.
pub open spec fn named_blocks(kind: CodeBlockType, fulls: Seq<Seq<char>>) -> Seq<BlockText>
    decreases fulls.len(),
{
    if fulls.len() == 0 {
        Seq::empty()
    } else {
        named_blocks(kind, fulls.drop_last()) + match parsed_name(kind, fulls.last()) {
            Some(n) => seq![(n, kind, fulls.last())],
            None => Seq::empty(),
        }
    }
}

fn name_blocks(kind: CodeBlockType, fulls: &[String]) -> (r: Vec<Block>)
    ensures
        block_texts(r@) == named_blocks(kind, texts(fulls@)),
{
    let ghost all = texts(fulls@);
    let mut out: Vec<Block> = Vec::new();
    let mut i: usize = 0;
    while i < fulls.len()
        invariant
            i <= fulls@.len(),
            block_texts(out@) == named_blocks(kind, all.take(i as int)),
        decreases fulls@.len() - i,
    {
        let ghost now = all.take(i + 1);
        assert(now.drop_last() =~= all.take(i as int));
        assert(now.last() == fulls@[i as int]@);
        let full: &str = fulls[i].as_str();
        let name: Option<String> = match kind {
            CodeBlockType::Function => match parse_fn(full) {
                Some(h) => Some(h.name),
                None => None,
            },
            CodeBlockType::Struct => parse_struct(full),
            CodeBlockType::Enum => parse_enum(full),
        };
        match name {
            Some(n) => {
                out.push((n, kind, fulls[i].clone()));
            },
            None => {},
        }
        assert(block_texts(out@) =~= named_blocks(kind, now));
        i += 1;
    }
    assert(all.take(i as int) =~= all);
    out
}

/// The blocks of a clipboard text: its items where it parses as a source file, else what looks
/// like a struct, then an enum, then a function, and parses as one.
pub open spec fn clipboard_blocks(content: Seq<char>) -> Seq<BlockText> {
    let c = trimmed(content);
    match parsed_source(c) {
        Some(items) => source_blocks(items),
        None => named_blocks(CodeBlockType::Struct, candidates(c, "struct "@, 0)) + named_blocks(
            CodeBlockType::Enum,
            candidates(c, "enum "@, 0),
        ) + named_blocks(CodeBlockType::Function, candidates(c, "fn "@, 0)),
    }
}

/// The blocks of a clipboard text; an error where it has none.
pub fn parse_clipboard_blocks(content: &str) -> (r: Result<Vec<Block>, String>)
    ensures
        match r {
            Ok(v) => block_texts(v@) == clipboard_blocks(content@) && v@.len() > 0,
            Err(e) => clipboard_blocks(content@).len() == 0 && e@
                == "No valid functions, structs, or enums found in clipboard"@,
        },
{
    let trimmed: String = trim(content);
    let c: &str = trimmed.as_str();
    let blocks: Vec<Block> = match parse_source(c) {
        Some(items) => blocks_of_items(items.as_slice()),
        None => {
            let mut out: Vec<Block> = name_blocks(
                CodeBlockType::Struct,
                block_candidates(c, "struct ").as_slice(),
            );
            let mut enums: Vec<Block> = name_blocks(
                CodeBlockType::Enum,
                block_candidates(c, "enum ").as_slice(),
            );
            let mut functions: Vec<Block> = name_blocks(
                CodeBlockType::Function,
                block_candidates(c, "fn ").as_slice(),
            );
            out.append(&mut enums);
            out.append(&mut functions);
            out
        },
    };
    assert(block_texts(blocks@) =~= clipboard_blocks(content@));
    if blocks.len() == 0 {
        return Err("No valid functions, structs, or enums found in clipboard".to_owned());
    }
    Ok(blocks)
}


/// The lines without white space at their ends, and without those that are then empty.
pub open spec fn normalized(lines: Seq<Seq<char>>) -> Seq<Seq<char>>
    decreases lines.len(),
{
    if lines.len() == 0 {
        Seq::empty()
    } else {
        let t = trimmed(lines.last());
        normalized(lines.drop_last()) + if t.len() > 0 {
            seq![t]
        } else {
            Seq::empty()
        }
    }
}

fn normalize_lines(lines: &[String]) -> (r: Vec<String>)
    ensures
        texts(r@) == normalized(texts(lines@)),
{
    let ghost all = texts(lines@);
    let mut out: Vec<String> = Vec::new();
    let mut i: usize = 0;
    while i < lines.len()
        invariant
            i <= lines@.len(),
            texts(out@) == normalized(all.take(i as int)),
        decreases lines@.len() - i,
    {
        let ghost now = all.take(i + 1);
        assert(now.drop_last() =~= all.take(i as int));
        assert(now.last() == lines@[i as int]@);
        let t: String = trim(lines[i].as_str());
        if !t.as_str().is_empty() {
            out.push(t);
        }
        assert(texts(out@) =~= normalized(now));
        i += 1;
    }
    assert(all.take(i as int) =~= all);
    out
}

/// A text with its lines trimmed and its blank lines left out.
pub fn normalize_for_match(s: &str) -> (r: String)
    ensures
        r@ == joined(normalized(lines(s@)), "\n"@),
{
    let ls: Vec<String> = lines_of(s);
    let ns: Vec<String> = normalize_lines(ls.as_slice());
    join(ns.as_slice(), "\n")
}

/// The first line, from line `k` on, that is not blank, trimmed.
pub open spec fn next_line(lines: Seq<Seq<char>>, k: int) -> Option<Seq<char>>
    decreases lines.len() - k,
{
    if k >= lines.len() {
        None
    } else if trimmed(lines[k]).len() > 0 {
        Some(trimmed(lines[k]))
    } else {
        next_line(lines, k + 1)
    }
}

fn find_next_line(lines: &[String], start: usize) -> (r: Option<String>)
    ensures
        next_line(texts(lines@), start as int) == match r {
            Some(t) => Some(t@),
            None => None,
        },
{
    let mut k: usize = start;
    while k < lines.len()
        invariant
            start <= k,
            next_line(texts(lines@), k as int) == next_line(
                texts(lines@),
                start as int,
            ),
        decreases lines@.len() - k,
    {
        let t: String = trim(lines[k].as_str());
        if !t.as_str().is_empty() {
            return Some(t);
        }
        k += 1;
    }
    None
}

/// The first line, from line `j` on, that closes a block opened at line `i` or later such that
/// the lines from `i` to it are `target`.
pub open spec fn range_end(
    lines: Seq<Seq<char>>,
    target: Seq<Seq<char>>,
    i: int,
    j: int,
    depth: int,
    opened: bool,
) -> Option<int>
    decreases lines.len() - j,
{
    if j >= lines.len() {
        None
    } else {
        let after = crate::braces::scanned(lines[j], depth, opened);
        if after.2 && normalized(lines.subrange(i, j + 1)) == target {
            Some(j)
        } else {
            range_end(lines, target, i, j + 1, after.0, after.1)
        }
    }
}

/// Whether `target` can begin at line `i`: its first two lines stand there.
pub open spec fn begins_at(lines: Seq<Seq<char>>, target: Seq<Seq<char>>, i: int) -> bool {
    &&& trimmed(lines[i]) == target[0]
    &&& target.len() > 1 ==> next_line(lines, i + 1) == Some(target[1])
}

/// The first range of lines, from line `i` on and counted from one, that is `target`.
pub open spec fn first_range(lines: Seq<Seq<char>>, target: Seq<Seq<char>>, i: int) -> Option<
    (int, int),
>
    decreases lines.len() - i,
{
    if i >= lines.len() {
        None
    } else if begins_at(lines, target, i) && range_end(lines, target, i, i, 0, false) is Some {
        Some((i + 1, range_end(lines, target, i, i, 0, false)->0 + 1))
    } else {
        first_range(lines, target, i + 1)
    }
}

/// The lines of `content` that `block` stands on: first line by line, white space aside, then as
/// it is.
pub open spec fn line_range_of(
    content: Seq<char>,
    block: Seq<char>,
    rows: Seq<Seq<char>>,
) -> Option<(int, int)> {
    let target = normalized(lines(block));
    if target.len() == 0 {
        None
    } else if first_range(rows, target, 0) is Some {
        first_range(rows, target, 0)
    } else {
        match find_from(content, block, 0) {
            Some(p) => {
                let before = newlines(content.take(p)) as int;
                Some((before + 1, before + lines(block).len()))
            },
            None => None,
        }
    }
}

fn find_range_end(lines: &[String], target: &[String], i: usize) -> (r: Option<usize>)
    requires
        i < lines@.len(),
    ensures
        match r {
            Some(j) => range_end(
                texts(lines@),
                texts(target@),
                i as int,
                i as int,
                0,
                false,
            ) == Some(j as int) && i <= j < lines@.len(),
            None => range_end(
                texts(lines@),
                texts(target@),
                i as int,
                i as int,
                0,
                false,
            ) is None,
        },
{
    let ghost ls = texts(lines@);
    let ghost ts = texts(target@);
    let mut braces: Braces = Braces::new();
    let mut j: usize = i;
    while j < lines.len()
        invariant
            i <= j <= lines@.len(),
            braces.wf(),
            braces.seen() == j - i,
            range_end(ls, ts, i as int, j as int, braces.depth(), braces.opened()) == range_end(
                ls,
                ts,
                i as int,
                i as int,
                0,
                false,
            ),
        decreases lines@.len() - j,
    {
        let hit: bool = braces.scan(lines[j].as_str());
        if hit {
            let part: Vec<String> = slice_texts(lines, i, j + 1);
            let found: Vec<String> = normalize_lines(part.as_slice());
            if same_texts(found.as_slice(), target) {
                return Some(j);
            }
        }
        j += 1;
    }
    None
}

/// The lines of `content` that `block` stands on, counted from one.
pub fn find_block_line_range(content: &str, block_str: &str, rows: &[String]) -> (r: Option<
    (usize, usize),
>)
    ensures
        match r {
            Some((a, b)) => line_range_of(content@, block_str@, texts(rows@))
                == Some((a as int, b as int)) && 1 <= a && 1 <= b,
            None => line_range_of(content@, block_str@, texts(rows@)) is None,
        },
{
    let ghost ls = texts(rows@);
    let block_lines: Vec<String> = lines_of(block_str);
    let target: Vec<String> = normalize_lines(block_lines.as_slice());
    let ghost ts = texts(target@);
    if target.len() == 0 {
        assert(ts.len() == 0);
        return None;
    }
    let mut i: usize = 0;
    while i < rows.len()
        invariant
            i <= rows@.len(),
            first_range(ls, ts, i as int) == first_range(ls, ts, 0),
        decreases rows@.len() - i,
    {
        let first: String = trim(rows[i].as_str());
        let mut here: bool = same(first.as_str(), target[0].as_str());
        if here && target.len() > 1 {
            here = match find_next_line(rows, i + 1) {
                Some(t) => same(t.as_str(), target[1].as_str()),
                None => false,
            };
        }
        assert(here == begins_at(ls, ts, i as int));
        if here {
            match find_range_end(rows, target.as_slice(), i) {
                Some(j) => {
                    return Some((i + 1, j + 1));
                },
                None => {},
            }
        }
        i += 1;
    }
    let cs: Vec<char> = chars_of(content);
    let bs: Vec<char> = chars_of(block_str);
    match find_at(&cs, &bs, 0) {
        Some(p) => {
            proof {
                lemma_lines_len(block_str@);
                assert(block_lines@.len() == lines(block_str@).len());
                assert(block_lines@.len() > 0) by {
                    if block_str@.len() == 0 {
                        assert(texts(block_lines@) =~= Seq::<Seq<char>>::empty());
                    }
                }
            }
            let n: usize = cs.len();
            let before: usize = newlines_before(&cs, p);
            Some((before + 1, before + block_lines.len()))
        },
        None => None,
    }
}

/// A block of a source file that may be replaced. What stands before a function's `fn` is kept
/// with it.
#[derive(Debug, PartialEq, Eq)]
pub struct CodeBlockMatch {
    pub file_path: String,
    pub block_name: String,
    pub block_type: CodeBlockType,
    pub old_full_block: String,
    pub head: Option<FnHead>,
    pub line_range: Option<(usize, usize)>,
    pub context_label: Option<String>,
}

/// What a `CodeBlockMatch` holds.
pub struct MatchText {
    pub file_path: Seq<char>,
    pub block_name: Seq<char>,
    pub block_type: CodeBlockType,
    pub old_full_block: Seq<char>,
    pub head: Option<FnHeadText>,
    pub line_range: Option<(int, int)>,
    pub context_label: Option<Seq<char>>,
}

impl View for CodeBlockMatch {
    type V = MatchText;

    open spec fn view(&self) -> MatchText {
        MatchText {
            file_path: self.file_path@,
            block_name: self.block_name@,
            block_type: self.block_type,
            old_full_block: self.old_full_block@,
            head: match self.head {
                Some(h) => Some(h@),
                None => None,
            },
            line_range: match self.line_range {
                Some((a, b)) => Some((a as int, b as int)),
                None => None,
            },
            context_label: match self.context_label {
                Some(c) => Some(c@),
                None => None,
            },
        }
    }
}

/// What a list of matches holds.
pub open spec fn match_texts(v: Seq<CodeBlockMatch>) -> Seq<MatchText> {
    v.map_values(|m: CodeBlockMatch| m@)
}

/// The items of kind `kind` that are called `name`, as matches.
pub open spec fn item_matches(
    path: Seq<char>,
    content: Seq<char>,
    items: Seq<ItemText>,
    kind: ItemKind,
    block_type: CodeBlockType,
    name: Seq<char>,
) -> Seq<MatchText>
    decreases items.len(),
{
    if items.len() == 0 {
        Seq::empty()
    } else {
        let it = items.last();
        item_matches(path, content, items.drop_last(), kind, block_type, name) + if it.kind == kind
            && it.name == name {
            seq![
                MatchText {
                    file_path: path,
                    block_name: name,
                    block_type,
                    old_full_block: it.tokens,
                    head: None,
                    line_range: line_range_of(content, it.tokens, lines(content)),
                    context_label: None,
                },
            ]
        } else {
            Seq::empty()
        }
    }
}

/// The items of kind `kind` that are called `name`, as matches.
pub fn match_items(
    file_path: &str,
    content: &str,
    items: &[SourceItem],
    kind: ItemKind,
    block_type: CodeBlockType,
    name: &str,
) -> (r: Vec<CodeBlockMatch>)
    ensures
        match_texts(r@) == item_matches(
            file_path@,
            content@,
            item_texts(items@),
            kind,
            block_type,
            name@,
        ),
{
    let ghost all = item_texts(items@);
    let lines: Vec<String> = lines_of(content);
    let mut out: Vec<CodeBlockMatch> = Vec::new();
    let mut i: usize = 0;
    while i < items.len()
        invariant
            i <= items@.len(),
            match_texts(out@) == item_matches(
                file_path@,
                content@,
                all.take(i as int),
                kind,
                block_type,
                name@,
            ),
        decreases items@.len() - i,
    {
        let ghost now = all.take(i + 1);
        let ghost before = match_texts(out@);
        assert(now.drop_last() =~= all.take(i as int));
        assert(now.last() == items@[i as int]@);
        let item: &SourceItem = &items[i];
        if item.kind == kind && same(item.name.as_str(), name) {
            let line_range: Option<(usize, usize)> = find_block_line_range(
                content,
                item.tokens.as_str(),
                lines.as_slice(),
            );
            let m: CodeBlockMatch = CodeBlockMatch {
                file_path: file_path.to_owned(),
                block_name: name.to_owned(),
                block_type,
                old_full_block: item.tokens.clone(),
                head: None,
                line_range,
                context_label: None,
            };
            let ghost held = m@;
            out.push(m);
            assert(match_texts(out@) =~= before.push(held));
        }
        assert(match_texts(out@) =~= item_matches(
            file_path@,
            content@,
            now,
            kind,
            block_type,
            name@,
        ));
        i += 1;
    }
    assert(all.take(i as int) =~= all);
    out
}

/// The structs called `struct_name` of a source file; none where it does not parse.
pub fn find_struct_in_file(file_path: &str, content: &str, struct_name: &str) -> (r: Option<
    Vec<CodeBlockMatch>,
>)
    ensures
        match source_items(content@) {
            Some(items) => r is Some && match_texts(r->0@) == item_matches(
                file_path@,
                content@,
                items,
                ItemKind::Struct,
                CodeBlockType::Struct,
                struct_name@,
            ),
            None => r is None,
        },
{
    match parse_items(content) {
        Some(items) => Some(
            match_items(
                file_path,
                content,
                items.as_slice(),
                ItemKind::Struct,
                CodeBlockType::Struct,
                struct_name,
            ),
        ),
        None => None,
    }
}

/// The enums called `enum_name` of a source file; none where it does not parse.
pub fn find_enum_in_file(file_path: &str, content: &str, enum_name: &str) -> (r: Option<
    Vec<CodeBlockMatch>,
>)
    ensures
        match source_items(content@) {
            Some(items) => r is Some && match_texts(r->0@) == item_matches(
                file_path@,
                content@,
                items,
                ItemKind::Enum,
                CodeBlockType::Enum,
                enum_name@,
            ),
            None => r is None,
        },
{
    match parse_items(content) {
        Some(items) => Some(
            match_items(
                file_path,
                content,
                items.as_slice(),
                ItemKind::Enum,
                CodeBlockType::Enum,
                enum_name,
            ),
        ),
        None => None,
    }
}

} // verus!
