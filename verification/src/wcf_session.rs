//! What the block replacer shows and asks, and what it makes of the answers.

use vstd::prelude::*;
use crate::diff::{change_texts, diff_lines, line_changes, ChangeTag, LineChange};
use crate::text::{
    char_count, chars_of, dec, decimal, index_of, join, joined, lines, lines_of, number, pad_left,
    pad_right, padded_left, padded_right, parse_usize, same, slice_index, slice_texts, split,
    split_at_char, starts_with, string_of, take_chars, texts, trim, trimmed,
};
use crate::unicode::{lowercase, to_lowercase};
use crate::wcf::{match_texts, CodeBlockMatch, CodeBlockType, MatchText};

verus! {

/// Whether a directory is passed over when source files are searched.
pub open spec fn is_skipped_dir(name: Seq<char>) -> bool {
    ||| name == "target"@
    ||| name == "node_modules"@
    ||| name == ".git"@
    ||| name == ".cargo"@
    ||| name == ".idea"@
    ||| name == ".vscode"@
}

/// Whether a directory is passed over when source files are searched.
pub fn skips_dir(name: &str) -> (r: bool)
    ensures
        r == is_skipped_dir(name@),
{
    same(name, "target") || same(name, "node_modules") || same(name, ".git") || same(name, ".cargo")
        || same(name, ".idea") || same(name, ".vscode")
}

/// A text with its lines numbered from one, the numbers right-aligned in four columns.
pub open spec fn numbered(ls: Seq<Seq<char>>) -> Seq<Seq<char>> {
    Seq::new(ls.len(), |i: int| padded_left(dec((i + 1) as nat), 4) + " "@ + ls[i])
}

/// A formatted code block with its lines numbered.
pub fn format_code_with_lines(formatted: &str) -> (r: String)
    ensures
        r@ == joined(numbered(lines(formatted@)), "\n"@),
{
    let ls: Vec<String> = lines_of(formatted);
    let ghost all = texts(ls@);
    let mut out: Vec<String> = Vec::new();
    let mut i: usize = 0;
    while i < ls.len()
        invariant
            i <= ls@.len(),
            texts(out@) == numbered(all).take(i as int),
        decreases ls@.len() - i,
    {
        let mut row: String = pad_left(decimal((i + 1) as u64).as_str(), 4);
        row.append(" ");
        row.append(ls[i].as_str());
        out.push(row);
        assert(texts(out@) =~= numbered(all).take(i + 1));
        i += 1;
    }
    assert(texts(out@) =~= numbered(all));
    join(out.as_slice(), "\n")
}

/// The lines of a changed text, each between `start` and `end`.
pub open spec fn marked_lines(ls: Seq<Seq<char>>, start: Seq<char>, end: Seq<char>) -> Seq<char>
    decreases ls.len(),
{
    if ls.len() == 0 {
        Seq::empty()
    } else {
        marked_lines(ls.drop_last(), start, end) + start + ls.last() + end
    }
}

fn mark_lines(text: &str, start: &str, end: &str) -> (r: String)
    ensures
        r@ == marked_lines(lines(text@), start@, end@),
{
    let ls: Vec<String> = lines_of(text);
    let ghost all = texts(ls@);
    let mut out: String = String::new();
    let mut i: usize = 0;
    while i < ls.len()
        invariant
            i <= ls@.len(),
            out@ == marked_lines(all.take(i as int), start@, end@),
        decreases ls@.len() - i,
    {
        assert(all.take(i + 1).drop_last() =~= all.take(i as int));
        assert(all.take(i + 1).last() == ls@[i as int]@);
        out.append(start);
        out.append(ls[i].as_str());
        out.append(end);
        i += 1;
    }
    assert(all.take(i as int) =~= all);
    out
}

/// A line of a difference as it is shown: green with a plus, red with a minus, or plain.
pub open spec fn change_shown(c: (ChangeTag, Seq<char>)) -> Seq<char> {
    match c.0 {
        ChangeTag::Insert => marked_lines(lines(c.1), "\x1b[32m+"@, "\x1b[0m\n"@),
        ChangeTag::Delete => marked_lines(lines(c.1), "\x1b[31m-"@, "\x1b[0m\n"@),
        ChangeTag::Equal => marked_lines(lines(c.1), " "@, "\n"@),
    }
}

pub open spec fn changes_shown(cs: Seq<(ChangeTag, Seq<char>)>) -> Seq<char>
    decreases cs.len(),
{
    if cs.len() == 0 {
        Seq::empty()
    } else {
        changes_shown(cs.drop_last()) + change_shown(cs.last())
    }
}

/// A difference as it is shown.
pub fn show_changes(changes: &[LineChange]) -> (r: String)
    ensures
        r@ == changes_shown(change_texts(changes@)),
{
    let ghost all = change_texts(changes@);
    let mut out: String = String::new();
    let mut i: usize = 0;
    while i < changes.len()
        invariant
            i <= changes@.len(),
            out@ == changes_shown(all.take(i as int)),
        decreases changes@.len() - i,
    {
        assert(all.take(i + 1).drop_last() =~= all.take(i as int));
        assert(all.take(i + 1).last() == (changes@[i as int].tag, changes@[i as int].text@));
        let text: &str = changes[i].text.as_str();
        let shown: String = match changes[i].tag {
            ChangeTag::Insert => mark_lines(text, "\x1b[32m+", "\x1b[0m\n"),
            ChangeTag::Delete => mark_lines(text, "\x1b[31m-", "\x1b[0m\n"),
            ChangeTag::Equal => mark_lines(text, " ", "\n"),
        };
        out.append(shown.as_str());
        i += 1;
    }
    assert(all.take(i as int) =~= all);
    out
}

/// The difference of two formatted blocks as it is shown; nothing where they are the same but for
/// white space at their ends.
pub fn generate_formatted_diff(old_formatted: &str, new_formatted: &str) -> (r: String)
    ensures
        r@ == if trimmed(old_formatted@) == trimmed(new_formatted@) {
            Seq::empty()
        } else {
            changes_shown(line_changes(old_formatted@, new_formatted@))
        },
{
    let o: String = trim(old_formatted);
    let n: String = trim(new_formatted);
    if same(o.as_str(), n.as_str()) {
        return String::new();
    }
    let changes: Vec<LineChange> = diff_lines(old_formatted, new_formatted);
    show_changes(changes.as_slice())
}

/// Whether a trimmed line says nothing about what a block does.
pub open spec fn is_idle_line(t: Seq<char>) -> bool {
    ||| t.len() == 0
    ||| t == "}"@
    ||| "//"@.is_prefix_of(t)
    ||| "/*"@.is_prefix_of(t)
    ||| "*"@.is_prefix_of(t)
}

/// The first line, from line `i` on, that says something, cut after 120 characters.
pub open spec fn first_telling_line(ls: Seq<Seq<char>>, i: int) -> Seq<char>
    decreases ls.len() - i,
{
    if i >= ls.len() {
        Seq::empty()
    } else {
        let t = trimmed(ls[i]);
        if is_idle_line(t) {
            first_telling_line(ls, i + 1)
        } else if t.len() >= 120 {
            t.take(120)
        } else {
            t
        }
    }
}

/// What stands behind the first opening brace; all of it where there is none.
pub open spec fn after_brace(block: Seq<char>) -> Seq<char> {
    if index_of(block, '{') < block.len() {
        block.skip(index_of(block, '{') + 1)
    } else {
        block
    }
}

/// The first line of a block's body that says something.
pub fn compact_body_preview(block: &str) -> (r: String)
    ensures
        r@ == first_telling_line(lines(after_brace(block@)), 0),
{
    let cs: Vec<char> = chars_of(block);
    let n: usize = cs.len();
    let k: usize = slice_index(&cs, '{', 0);
    assert(cs@.skip(0) =~= cs@);
    let body: String = if k < n {
        string_of(&cs, k + 1, n)
    } else {
        string_of(&cs, 0, n)
    };
    assert(body@ =~= after_brace(block@));
    let ls: Vec<String> = lines_of(body.as_str());
    let ghost all = texts(ls@);
    let mut i: usize = 0;
    while i < ls.len()
        invariant
            i <= ls@.len(),
            first_telling_line(all, i as int) == first_telling_line(all, 0),
        decreases ls@.len() - i,
    {
        assert(all[i as int] == ls@[i as int]@);
        let t: String = trim(ls[i].as_str());
        let s: &str = t.as_str();
        if !(s.is_empty() || same(s, "}") || starts_with(s, "//") || starts_with(s, "/*")
            || starts_with(s, "*")) {
            return take_chars(s, 120);
        }
        i += 1;
    }
    String::new()
}

/// Where a match lies: its path, and its lines where they are known.
pub open spec fn location_shown(path: Seq<char>, range: Option<(int, int)>) -> Seq<char> {
    match range {
        Some(r) => path + ":"@ + dec(r.0 as nat) + "-"@ + dec(r.1 as nat),
        None => path,
    }
}

/// Where a match lies.
pub fn show_location(path: &str, range: Option<(usize, usize)>) -> (r: String)
    ensures
        r@ == location_shown(
            path@,
            match range {
                Some((a, b)) => Some((a as int, b as int)),
                None => None,
            },
        ),
{
    let mut out: String = path.to_owned();
    match range {
        Some((a, b)) => {
            out.append(":");
            out.append(decimal(a as u64).as_str());
            out.append("-");
            out.append(decimal(b as u64).as_str());
        },
        None => {},
    }
    out
}

/// The lines of a match, or `unknown`.
pub fn show_range(range: Option<(usize, usize)>) -> (r: String)
    ensures
        r@ == match range {
            Some((a, b)) => dec(a as nat) + "-"@ + dec(b as nat),
            None => "unknown"@,
        },
{
    match range {
        Some((a, b)) => {
            let mut out: String = decimal(a as u64);
            out.append("-");
            out.append(decimal(b as u64).as_str());
            out
        },
        None => "unknown".to_owned(),
    }
}

/// A match on offer: its place in the list, where it lies, what it belongs to and how its body
/// begins, with tabs between them.
pub open spec fn offer(index: int, path: Seq<char>, m: MatchText) -> Seq<char> {
    dec(index as nat) + "\t"@ + location_shown(path, m.line_range) + "\t"@ + match m.context_label {
        Some(c) => c,
        None => Seq::empty(),
    } + "\t"@ + first_telling_line(lines(after_brace(m.old_full_block)), 0)
}

fn make_offer(index: usize, path: &str, m: &CodeBlockMatch) -> (r: String)
    ensures
        r@ == offer(index as int, path@, m@),
{
    let mut out: String = decimal(index as u64);
    out.append("\t");
    out.append(show_location(path, m.line_range).as_str());
    out.append("\t");
    let mut ctx: String = String::new();
    match &m.context_label {
        Some(c) => {
            ctx = c.clone();
        },
        None => {},
    }
    out.append(ctx.as_str());
    out.append("\t");
    out.append(compact_body_preview(m.old_full_block.as_str()).as_str());
    out
}

/// The matches on offer.
pub open spec fn offers(paths: Seq<Seq<char>>, ms: Seq<MatchText>) -> Seq<Seq<char>> {
    Seq::new(ms.len(), |i: int| offer(i, paths[i], ms[i]))
}

/// Column `k` of a row with tabs between its columns; empty where it has fewer.
pub open spec fn column(row: Seq<char>, k: int) -> Seq<char> {
    if k < split(row, '\t').len() {
        split(row, '\t')[k]
    } else {
        Seq::empty()
    }
}

/// The columns of a row from the fourth on, as one.
pub open spec fn last_columns(row: Seq<char>) -> Seq<char> {
    if split(row, '\t').len() > 3 {
        joined(split(row, '\t').skip(3), "\t"@)
    } else {
        Seq::empty()
    }
}

/// The width of the widest column `k` of the rows.
pub open spec fn column_width(rows: Seq<Seq<char>>, k: int) -> nat
    decreases rows.len(),
{
    if rows.len() == 0 {
        0
    } else {
        let w = column_width(rows.drop_last(), k);
        if column(rows.last(), k).len() > w {
            column(rows.last(), k).len()
        } else {
            w
        }
    }
}

fn take_column(row: &str, k: usize) -> (r: String)
    ensures
        r@ == column(row@, k as int),
{
    let parts: Vec<String> = split_at_char(row, '\t');
    assert(texts(parts@).len() == parts@.len());
    if k < parts.len() {
        parts[k].clone()
    } else {
        let r: String = String::new();
        assert(r@ =~= Seq::<char>::empty());
        r
    }
}

fn take_last_columns(row: &str) -> (r: String)
    ensures
        r@ == last_columns(row@),
{
    let parts: Vec<String> = split_at_char(row, '\t');
    assert(texts(parts@).len() == parts@.len());
    let n: usize = parts.len();
    if n > 3 {
        let rest: Vec<String> = slice_texts(parts.as_slice(), 3, n);
        assert(texts(rest@) =~= texts(parts@).skip(3));
        join(rest.as_slice(), "\t")
    } else {
        String::new()
    }
}

fn width_of_column(rows: &[String], k: usize) -> (r: usize)
    ensures
        r == column_width(texts(rows@), k as int),
{
    let ghost all = texts(rows@);
    let mut w: usize = 0;
    let mut i: usize = 0;
    while i < rows.len()
        invariant
            i <= rows@.len(),
            w == column_width(all.take(i as int), k as int),
        decreases rows@.len() - i,
    {
        assert(all.take(i + 1).drop_last() =~= all.take(i as int));
        assert(all.take(i + 1).last() == rows@[i as int]@);
        let n: usize = char_count(take_column(rows[i].as_str(), k).as_str());
        if n > w {
            w = n;
        }
        i += 1;
    }
    assert(all.take(i as int) =~= all);
    w
}

/// The rows in columns: the index, a tab, then the location and the context in columns of their
/// widest entries, and the preview.
pub open spec fn aligned(rows: Seq<Seq<char>>) -> Seq<Seq<char>> {
    Seq::new(
        rows.len(),
        |i: int|
            dec(i as nat) + "\t"@ + padded_right(column(rows[i], 1), column_width(rows, 1)) + "  "@
                + padded_right(column(rows[i], 2), column_width(rows, 2)) + "  "@ + last_columns(
                rows[i],
            ),
    )
}

fn align_rows(rows: &[String]) -> (r: Vec<String>)
    ensures
        texts(r@) == aligned(texts(rows@)),
{
    let ghost all = texts(rows@);
    let w1: usize = width_of_column(rows, 1);
    let w2: usize = width_of_column(rows, 2);
    let mut out: Vec<String> = Vec::new();
    let mut i: usize = 0;
    while i < rows.len()
        invariant
            i <= rows@.len(),
            texts(out@) == aligned(all).take(i as int),
        decreases rows@.len() - i,
    {
        let row: &str = rows[i].as_str();
        let mut s: String = decimal(i as u64);
        s.append("\t");
        s.append(pad_right(take_column(row, 1).as_str(), w1).as_str());
        s.append("  ");
        s.append(pad_right(take_column(row, 2).as_str(), w2).as_str());
        s.append("  ");
        s.append(take_last_columns(row).as_str());
        assert(s@ == aligned(all)[i as int]);
        out.push(s);
        assert(texts(out@) =~= aligned(all).take(i + 1));
        i += 1;
    }
    assert(texts(out@) =~= aligned(all));
    out
}

/// The list from which a match is chosen; `paths` are the paths to show.
pub fn match_list(matches: &[CodeBlockMatch], paths: &[String]) -> (r: String)
    requires
        matches@.len() == paths@.len(),
    ensures
        r@ == joined(aligned(offers(texts(paths@), match_texts(matches@))), "\n"@),
{
    let ghost ps = texts(paths@);
    let ghost ms = match_texts(matches@);
    let mut rows: Vec<String> = Vec::new();
    let mut i: usize = 0;
    while i < matches.len()
        invariant
            i <= matches@.len() == paths@.len(),
            texts(rows@) == offers(ps, ms).take(i as int),
        decreases matches@.len() - i,
    {
        rows.push(make_offer(i, paths[i].as_str(), &matches[i]));
        assert(texts(rows@) =~= offers(ps, ms).take(i + 1));
        i += 1;
    }
    assert(texts(rows@) =~= offers(ps, ms));
    let out: Vec<String> = align_rows(rows.as_slice());
    join(out.as_slice(), "\n")
}

/// The place in a list of `count` that a chosen row begins with, where it begins with one.
pub open spec fn chosen(selected: Seq<char>, count: nat) -> Option<nat> {
    match number(trimmed(split(trimmed(selected), '\t')[0])) {
        Some(n) => if n < count {
            Some(n)
        } else {
            None
        },
        None => None,
    }
}

/// The match that was chosen from a list of `count`.
pub fn chosen_match(selected: &str, count: usize) -> (r: Option<usize>)
    ensures
        chosen(selected@, count as nat) == match r {
            Some(i) => Some(i as nat),
            None => None,
        },
{
    let t: String = trim(selected);
    let parts: Vec<String> = split_at_char(t.as_str(), '\t');
    proof {
        assert(texts(parts@).len() == parts@.len());
        assert(split(t@, '\t').len() > 0);
        assert(texts(parts@)[0] == parts@[0]@);
    }
    match parse_usize(trim(parts[0].as_str()).as_str()) {
        Some(i) => if i < count {
            Some(i)
        } else {
            None
        },
        None => None,
    }
}

/// The keyword of a kind of block.
pub open spec fn keyword_of(t: CodeBlockType) -> Seq<char> {
    match t {
        CodeBlockType::Function => "fn"@,
        CodeBlockType::Struct => "struct"@,
        CodeBlockType::Enum => "enum"@,
    }
}

/// The keyword of a kind of block.
pub fn block_keyword(t: CodeBlockType) -> (r: &'static str)
    ensures
        r@ == keyword_of(t),
{
    match t {
        CodeBlockType::Function => "fn",
        CodeBlockType::Struct => "struct",
        CodeBlockType::Enum => "enum",
    }
}

/// The word for a kind of block.
pub fn block_word(t: CodeBlockType) -> (r: &'static str)
    ensures
        r@ == word_of(t),
{
    match t {
        CodeBlockType::Function => "function",
        CodeBlockType::Struct => "struct",
        CodeBlockType::Enum => "enum",
    }
}

/// What is to be done with a block that was shown.
#[derive(Clone, Copy, Debug, PartialEq, Eq, Structural)]
pub enum PreviewAnswer {
    SkipAll,
    Skip,
    Continue,
}

/// What is to be done with a block that was shown: `skip all` ends the run, `n` and `no` skip the
/// block, anything else goes on.
pub fn preview_answer(input: &str) -> (r: PreviewAnswer)
    ensures
        r == ({
            let a = lowercase(trimmed(input@));
            if a == "skip all"@ {
                PreviewAnswer::SkipAll
            } else if a == "n"@ || a == "no"@ {
                PreviewAnswer::Skip
            } else {
                PreviewAnswer::Continue
            }
        }),
{
    let a: String = to_lowercase(trim(input).as_str());
    let s: &str = a.as_str();
    if same(s, "skip all") {
        PreviewAnswer::SkipAll
    } else if same(s, "n") || same(s, "no") {
        PreviewAnswer::Skip
    } else {
        PreviewAnswer::Continue
    }
}

/// Where a block stands that was chosen.
#[derive(Debug, PartialEq, Eq)]
pub struct Place {
    pub block_name: String,
    pub file_path: String,
    pub line_range: Option<(usize, usize)>,
}

/// What a `Place` holds.
#[verifier::ext_equal]
pub struct PlaceText {
    pub block_name: Seq<char>,
    pub file_path: Seq<char>,
    pub line_range: Option<(int, int)>,
}

impl View for Place {
    type V = PlaceText;

    open spec fn view(&self) -> PlaceText {
        PlaceText {
            block_name: self.block_name@,
            file_path: self.file_path@,
            line_range: match self.line_range {
                Some((a, b)) => Some((a as int, b as int)),
                None => None,
            },
        }
    }
}

/// Where a match stands.
pub open spec fn place(m: MatchText) -> PlaceText {
    PlaceText { block_name: m.block_name, file_path: m.file_path, line_range: m.line_range }
}

/// Where a match stands.
pub fn place_of(m: &CodeBlockMatch) -> (r: Place)
    ensures
        r@ == place(m@),
{
    Place {
        block_name: m.block_name.clone(),
        file_path: m.file_path.clone(),
        line_range: m.line_range,
    }
}

/// Whether a match stands at a place.
pub open spec fn stands_at(m: MatchText, p: PlaceText) -> bool {
    m.file_path == p.file_path && m.line_range == p.line_range
}

/// The places in the list of the matches that stand at `p`.
pub open spec fn places_like(ms: Seq<MatchText>, p: PlaceText) -> Seq<int>
    decreases ms.len(),
{
    if ms.len() == 0 {
        Seq::empty()
    } else {
        let earlier = places_like(ms.drop_last(), p);
        if stands_at(ms.last(), p) {
            earlier.push(ms.len() - 1)
        } else {
            earlier
        }
    }
}

fn is_at(m: &CodeBlockMatch, p: &Place) -> (r: bool)
    ensures
        r == stands_at(m@, p@),
{
    let ranges: bool = match (m.line_range, p.line_range) {
        (Some((a, b)), Some((c, d))) => a == c && b == d,
        (None, None) => true,
        _ => false,
    };
    ranges && same(m.file_path.as_str(), p.file_path.as_str())
}

/// The places in the list of the matches that stand where the last chosen one stood.
pub fn remembered_places(matches: &[CodeBlockMatch], last: &Place) -> (r: Vec<usize>)
    ensures
        r@.map_values(|i: usize| i as int) == places_like(match_texts(matches@), last@),
        forall|k: int| 0 <= k < r@.len() ==> #[trigger] r@[k] < matches@.len(),
{
    let ghost all = match_texts(matches@);
    let mut out: Vec<usize> = Vec::new();
    let mut i: usize = 0;
    while i < matches.len()
        invariant
            i <= matches@.len(),
            out@.map_values(|i: usize| i as int) == places_like(all.take(i as int), last@),
            forall|k: int| 0 <= k < out@.len() ==> #[trigger] out@[k] < matches@.len(),
        decreases matches@.len() - i,
    {
        let ghost now = all.take(i + 1);
        let ghost earlier = out@.map_values(|i: usize| i as int);
        assert(now.drop_last() =~= all.take(i as int));
        assert(now.last() == matches@[i as int]@);
        if is_at(&matches[i], last) {
            out.push(i);
            assert(out@.map_values(|i: usize| i as int) =~= earlier.push(i as int));
        }
        i += 1;
    }
    assert(all.take(i as int) =~= all);
    out
}

/// What became of the blocks of a run.
#[derive(Debug, PartialEq, Eq)]
pub struct BlockTally {
    pub processed: Vec<String>,
    pub unchanged: Vec<String>,
    pub declined: Vec<String>,
    pub not_found: Vec<String>,
}

/// What can become of a block.
#[derive(Clone, Copy, Debug, PartialEq, Eq, Structural)]
pub enum Outcome {
    Processed,
    Unchanged,
    Declined,
    NotFound,
}

/// What a `BlockTally` holds.
pub struct TallyText {
    pub processed: Seq<Seq<char>>,
    pub unchanged: Seq<Seq<char>>,
    pub declined: Seq<Seq<char>>,
    pub not_found: Seq<Seq<char>>,
}

impl TallyText {
    /// The lists with one more block.
    pub open spec fn with(self, entry: Seq<char>, outcome: Outcome) -> TallyText {
        match outcome {
            Outcome::Processed => TallyText { processed: self.processed.push(entry), ..self },
            Outcome::Unchanged => TallyText { unchanged: self.unchanged.push(entry), ..self },
            Outcome::Declined => TallyText { declined: self.declined.push(entry), ..self },
            Outcome::NotFound => TallyText { not_found: self.not_found.push(entry), ..self },
        }
    }

    /// How many blocks are listed.
    pub open spec fn total(self) -> nat {
        self.processed.len() + self.unchanged.len() + self.declined.len() + self.not_found.len()
    }
}

impl View for BlockTally {
    type V = TallyText;

    open spec fn view(&self) -> TallyText {
        TallyText {
            processed: texts(self.processed@),
            unchanged: texts(self.unchanged@),
            declined: texts(self.declined@),
            not_found: texts(self.not_found@),
        }
    }
}

impl BlockTally {
    pub fn new() -> (r: BlockTally)
        ensures
            r@ == (TallyText {
                processed: Seq::empty(),
                unchanged: Seq::empty(),
                declined: Seq::empty(),
                not_found: Seq::empty(),
            }),
    {
        let r: BlockTally = BlockTally {
            processed: Vec::new(),
            unchanged: Vec::new(),
            declined: Vec::new(),
            not_found: Vec::new(),
        };
        assert(r@.processed =~= Seq::empty());
        assert(r@.unchanged =~= Seq::empty());
        assert(r@.declined =~= Seq::empty());
        assert(r@.not_found =~= Seq::empty());
        r
    }

    /// Notes what became of a block.
    pub fn record(&mut self, block_type: CodeBlockType, name: &str, outcome: Outcome)
        ensures
            final(self)@ == old(self)@.with(word_of(block_type) + " "@ + name@, outcome),
    {
        let ghost was = self@;
        let mut entry: String = block_word(block_type).to_owned();
        entry.append(" ");
        entry.append(name);
        let ghost e = entry@;
        match outcome {
            Outcome::Processed => {
                self.processed.push(entry);
                assert(self@.processed =~= was.processed.push(e));
            },
            Outcome::Unchanged => {
                self.unchanged.push(entry);
                assert(self@.unchanged =~= was.unchanged.push(e));
            },
            Outcome::Declined => {
                self.declined.push(entry);
                assert(self@.declined =~= was.declined.push(e));
            },
            Outcome::NotFound => {
                self.not_found.push(entry);
                assert(self@.not_found =~= was.not_found.push(e));
            },
        }
    }

    /// How many blocks were skipped, for any reason.
    pub open spec fn skipped(&self) -> nat {
        self@.unchanged.len() + self@.declined.len() + self@.not_found.len()
    }
}

/// The word for a kind of block.
pub open spec fn word_of(t: CodeBlockType) -> Seq<char> {
    match t {
        CodeBlockType::Function => "function"@,
        CodeBlockType::Struct => "struct"@,
        CodeBlockType::Enum => "enum"@,
    }
}

/// A list of blocks as it is shown.
pub open spec fn block_rows(blocks: Seq<Seq<char>>) -> Seq<char> {
    if blocks.len() == 0 {
        "  • none\n"@
    } else {
        marked_lines(blocks, "  • "@, "\n"@)
    }
}

fn list_blocks(blocks: &[String]) -> (r: String)
    ensures
        r@ == block_rows(texts(blocks@)),
{
    if blocks.len() == 0 {
        return "  • none\n".to_owned();
    }
    let ghost all = texts(blocks@);
    let mut out: String = String::new();
    let mut i: usize = 0;
    while i < blocks.len()
        invariant
            i <= blocks@.len(),
            out@ == marked_lines(all.take(i as int), "  • "@, "\n"@),
        decreases blocks@.len() - i,
    {
        assert(all.take(i + 1).drop_last() =~= all.take(i as int));
        assert(all.take(i + 1).last() == blocks@[i as int]@);
        out.append("  • ");
        out.append(blocks[i].as_str());
        out.append("\n");
        i += 1;
    }
    assert(all.take(i as int) =~= all);
    out
}

/// The summary of a run.
pub open spec fn tally_shown(t: TallyText) -> Seq<char> {
    "\n\x1b[1;32m━━━━━━━━━━━━━━━━━━━━━━━━━━━━━━━━━━━━━━━━\x1b[0m\n\x1b[1;32m✅ All code blocks processed!\x1b[0m\n  Blocks processed: "@
        + dec(t.processed.len()) + "\n  Blocks skipped: "@ + dec(
        t.unchanged.len() + t.declined.len() + t.not_found.len(),
    ) + "\n\n\x1b[1;36mProcessed blocks:\x1b[0m\n"@ + block_rows(t.processed)
        + "\n\x1b[1;33mSkipped (no changes detected):\x1b[0m\n"@ + block_rows(t.unchanged)
        + "\n\x1b[1;33mSkipped (user decision / no file selected):\x1b[0m\n"@ + block_rows(
        t.declined,
    ) + "\n\x1b[1;31mNot found:\x1b[0m\n"@ + block_rows(t.not_found)
}

/// The summary of a run.
pub fn show_tally(t: &BlockTally) -> (r: String)
    requires
        t.skipped() <= u64::MAX,
    ensures
        r@ == tally_shown(t@),
{
    let mut out: String =
        "\n\x1b[1;32m━━━━━━━━━━━━━━━━━━━━━━━━━━━━━━━━━━━━━━━━\x1b[0m\n\x1b[1;32m✅ All code blocks processed!\x1b[0m\n  Blocks processed: ".to_owned();
    out.append(decimal(t.processed.len() as u64).as_str());
    out.append("\n  Blocks skipped: ");
    let skipped: u64 = t.unchanged.len() as u64 + t.declined.len() as u64 + t.not_found.len()
        as u64;
    out.append(decimal(skipped).as_str());
    out.append("\n\n\x1b[1;36mProcessed blocks:\x1b[0m\n");
    out.append(list_blocks(t.processed.as_slice()).as_str());
    out.append("\n\x1b[1;33mSkipped (no changes detected):\x1b[0m\n");
    out.append(list_blocks(t.unchanged.as_slice()).as_str());
    out.append("\n\x1b[1;33mSkipped (user decision / no file selected):\x1b[0m\n");
    out.append(list_blocks(t.declined.as_slice()).as_str());
    out.append("\n\x1b[1;31mNot found:\x1b[0m\n");
    out.append(list_blocks(t.not_found.as_slice()).as_str());
    out
}

} // verus!
