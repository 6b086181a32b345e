//! Places and ranges in a source text, by line and column and by byte.

use vstd::prelude::*;
use crate::bytes::{
    byte_len, bytes_text, is_boundary, lemma_byte_order, lemma_byte_step, slice_bytes, width,
};
use crate::text::{
    chars_of, join, joined, line_start, lines, lines_of, newlines, slice_texts, texts,
};

verus! {

/// A line, counted from one, and a column on it, counted from zero.
#[derive(Debug, Clone, Copy, PartialEq, Eq, Structural)]
pub struct Position {
    pub line: u64,
    pub column: u64,
}

/// A range of bytes.
#[derive(Debug, Clone, Copy, PartialEq, Eq, Structural)]
pub struct ByteRange {
    pub start: usize,
    pub end: usize,
}

/// A range of a text, by its ends and, where known, by its bytes.
#[derive(Debug, Clone, Copy, PartialEq, Eq, Structural)]
pub struct SourceRange {
    pub start: Position,
    pub end: Position,
    pub bytes: Option<ByteRange>,
}

impl Default for SourceRange {
    /// A range of no line.
    fn default() -> (r: SourceRange)
        ensures
            r == (SourceRange {
                start: Position { line: 0, column: 0 },
                end: Position { line: 0, column: 0 },
                bytes: None,
            }),
    {
        SourceRange {
            start: Position { line: 0, column: 0 },
            end: Position { line: 0, column: 0 },
            bytes: None,
        }
    }
}

/// Whether place `k` of a text lies on line `line`, counted from one, behind `column` of its
/// characters.
pub open spec fn is_at(s: Seq<char>, k: int, line: int, column: int) -> bool {
    &&& 0 <= k <= s.len()
    &&& 1 + newlines(s.take(k)) == line
    &&& k - line_start(s, k) == column
}

/// Whether place `k` of a text lies on line `line`, counted from one, behind `column` bytes of it.
pub open spec fn is_at_byte(s: Seq<char>, k: int, line: int, column: int) -> bool {
    &&& 0 <= k <= s.len()
    &&& 1 + newlines(s.take(k)) == line
    &&& byte_len(s.take(k)) - byte_len(s.take(line_start(s, k))) == column
}

proof fn lemma_line_start_bounds(s: Seq<char>, k: int)
    requires
        0 <= k <= s.len(),
    ensures
        0 <= line_start(s, k) <= k,
    decreases k,
{
    if k > 0 && s[k - 1] != '\n' {
        lemma_line_start_bounds(s, k - 1);
    }
}

proof fn lemma_newlines_step(s: Seq<char>, k: int)
    requires
        0 <= k < s.len(),
    ensures
        newlines(s.take(k + 1)) == newlines(s.take(k)) + if s[k] == '\n' {
            1nat
        } else {
            0nat
        },
        line_start(s, k + 1) == if s[k] == '\n' {
            k + 1
        } else {
            line_start(s, k)
        },
{
    assert(s.take(k + 1).drop_last() =~= s.take(k));
}

proof fn lemma_same_line(s: Seq<char>, i: int, j: int)
    requires
        0 <= i <= j <= s.len(),
    ensures
        newlines(s.take(i)) <= newlines(s.take(j)),
        newlines(s.take(i)) == newlines(s.take(j)) ==> line_start(s, i) == line_start(s, j),
    decreases j,
{
    if i < j {
        lemma_newlines_step(s, j - 1);
        lemma_same_line(s, i, j - 1);
    }
}

/// A line and a column name at most one place of a text.
pub proof fn law_places_are_unique(s: Seq<char>, i: int, j: int, line: int, column: int)
    requires
        is_at(s, i, line, column),
        is_at(s, j, line, column),
    ensures
        i == j,
{
    if i < j {
        lemma_same_line(s, i, j);
    } else if j < i {
        lemma_same_line(s, j, i);
    }
}

/// A line and a column in bytes name at most one place of a text.
pub proof fn law_byte_places_are_unique(s: Seq<char>, i: int, j: int, line: int, column: int)
    requires
        is_at_byte(s, i, line, column),
        is_at_byte(s, j, line, column),
    ensures
        i == j,
{
    if i < j {
        lemma_same_line(s, i, j);
        lemma_byte_order(s, i, j);
    } else if j < i {
        lemma_same_line(s, j, i);
        lemma_byte_order(s, j, i);
    }
}

/// The byte at which a line and a column, counted in characters, lie, if they name a place.
pub open spec fn char_byte(s: Seq<char>, line: int, column: int) -> Option<int> {
    if exists|k: int| #[trigger] is_at(s, k, line, column) {
        Some(byte_len(s.take(choose|k: int| #[trigger] is_at(s, k, line, column))) as int)
    } else {
        None
    }
}

/// The byte at which a line and a column, counted in bytes, lie, if they name a place.
pub open spec fn column_byte(s: Seq<char>, line: int, column: int) -> Option<int> {
    if exists|k: int| #[trigger] is_at_byte(s, k, line, column) {
        Some(byte_len(s.take(choose|k: int| #[trigger] is_at_byte(s, k, line, column))) as int)
    } else {
        None
    }
}

/// The byte at which a line and a column, counted in characters, lie.
pub fn char_column_to_byte(text: &str, line: u64, column: u64) -> (r: Option<usize>)
    ensures
        match r {
            Some(b) => char_byte(text@, line as int, column as int) == Some(b as int),
            None => char_byte(text@, line as int, column as int) is None,
        },
{
    let cs: Vec<char> = chars_of(text);
    let _size: usize = text.as_bytes().len();
    let n: usize = cs.len();
    let mut at: usize = 0;
    let mut row: usize = 0;
    let mut col: usize = 0;
    let mut k: usize = 0;
    assert(cs@.take(n as int) =~= cs@);
    loop
        invariant
            k <= n,
            at == byte_len(cs@.take(k as int)),
            row == newlines(cs@.take(k as int)),
            row <= k,
            col == k - line_start(cs@, k as int),
            forall|j: int| 0 <= j < k ==> !#[trigger] is_at(text@, j, line as int, column as int),
        decreases n - k,
    {
        if line > 0 && row as u64 == line - 1 && col as u64 == column {
            proof {
                assert(is_at(text@, k as int, line as int, column as int));
                let j = choose|j: int| #[trigger] is_at(text@, j, line as int, column as int);
                law_places_are_unique(text@, k as int, j, line as int, column as int);
            }
            return Some(at);
        }
        assert(!is_at(text@, k as int, line as int, column as int));
        if k == n {
            return None;
        }
        proof {
            lemma_newlines_step(cs@, k as int);
            lemma_line_start_bounds(cs@, k + 1);
            lemma_byte_step(cs@, k as int);
            lemma_byte_order(cs@, k + 1, n as int);
        }
        at += width(cs[k]);
        if cs[k] == '\n' {
            row += 1;
            col = 0;
        } else {
            col += 1;
        }
        k += 1;
    }
}

/// The byte at which a line and a column, counted in bytes, lie.
pub fn byte_column_to_byte(text: &str, line: u64, column: u64) -> (r: Option<usize>)
    ensures
        match r {
            Some(b) => column_byte(text@, line as int, column as int) == Some(b as int),
            None => column_byte(text@, line as int, column as int) is None,
        },
{
    let cs: Vec<char> = chars_of(text);
    let _size: usize = text.as_bytes().len();
    let n: usize = cs.len();
    let mut at: usize = 0;
    let mut row: usize = 0;
    let mut col: usize = 0;
    let mut k: usize = 0;
    assert(cs@.take(n as int) =~= cs@);
    loop
        invariant
            k <= n,
            at == byte_len(cs@.take(k as int)),
            row == newlines(cs@.take(k as int)),
            row <= k,
            col == byte_len(cs@.take(k as int)) - byte_len(cs@.take(line_start(cs@, k as int))),
            col <= at,
            forall|j: int|
                0 <= j < k ==> !#[trigger] is_at_byte(text@, j, line as int, column as int),
        decreases n - k,
    {
        if line > 0 && row as u64 == line - 1 && col as u64 == column {
            proof {
                assert(is_at_byte(text@, k as int, line as int, column as int));
                let j = choose|j: int| #[trigger] is_at_byte(text@, j, line as int, column as int);
                law_byte_places_are_unique(text@, k as int, j, line as int, column as int);
            }
            return Some(at);
        }
        assert(!is_at_byte(text@, k as int, line as int, column as int));
        if k == n {
            return None;
        }
        proof {
            lemma_newlines_step(cs@, k as int);
            lemma_line_start_bounds(cs@, k + 1);
            lemma_byte_step(cs@, k as int);
            lemma_byte_order(cs@, k + 1, n as int);
        }
        let w: usize = width(cs[k]);
        at += w;
        if cs[k] == '\n' {
            row += 1;
            col = 0;
        } else {
            col += w;
        }
        k += 1;
    }
}

/// Whether position `line`, `col` lies in a range: not before its start, and before its end.
pub open spec fn covers(range: SourceRange, line: int, col: int) -> bool {
    &&& line > range.start.line || (line == range.start.line && col >= range.start.column)
    &&& line < range.end.line || (line == range.end.line && col < range.end.column)
}

/// Whether position `line`, `col` lies in a range.
pub fn contains(range: &SourceRange, line: u64, col: u64) -> (r: bool)
    ensures
        r == covers(*range, line as int, col as int),
{
    (line > range.start.line || (line == range.start.line && col >= range.start.column)) && (line
        < range.end.line || (line == range.end.line && col < range.end.column))
}

/// The lines `from`, counted from one, to `to` of a text.
pub open spec fn line_range(content: Seq<char>, from: int, to: int) -> Seq<char> {
    let all = lines(content);
    let start = if from > 0 {
        from - 1
    } else {
        0
    };
    let end = if to < all.len() {
        to
    } else {
        all.len() as int
    };
    if start < end {
        joined(all.subrange(start, end), "\n"@)
    } else {
        Seq::empty()
    }
}

/// Whether the bytes of a range begin and end with characters of a text, where they lie in it.
pub open spec fn bytes_on_boundaries(content: Seq<char>, range: SourceRange) -> bool {
    match range.bytes {
        Some(b) => b.start <= b.end <= byte_len(content) ==> is_boundary(content, b.start as int)
            && is_boundary(content, b.end as int),
        None => true,
    }
}

/// The text of a range: its bytes, where they lie in the text, and else its lines.
pub open spec fn snippet_text(content: Seq<char>, range: SourceRange) -> Seq<char> {
    match range.bytes {
        Some(b) if b.start <= b.end <= byte_len(content) => bytes_text(
            content,
            b.start as int,
            b.end as int,
        ),
        _ => line_range(content, range.start.line as int, range.end.line as int),
    }
}

/// The text of a range.
pub fn snippet_from_range(content: &str, range: &SourceRange) -> (r: String)
    requires
        bytes_on_boundaries(content@, *range),
    ensures
        r@ == snippet_text(content@, *range),
{
    let size: usize = content.as_bytes().len();
    match range.bytes {
        Some(b) => if b.start <= b.end && b.end <= size {
            match slice_bytes(content, b.start, b.end) {
                Some(t) => {
                    return t;
                },
                None => {},
            }
        },
        None => {},
    }
    let all: Vec<String> = lines_of(content);
    let n: usize = all.len();
    let start: u64 = if range.start.line > 0 {
        range.start.line - 1
    } else {
        0
    };
    let end: u64 = if range.end.line < n as u64 {
        range.end.line
    } else {
        n as u64
    };
    if start < end {
        let part: Vec<String> = slice_texts(&all, start as usize, end as usize);
        assert(texts(part@) =~= lines(content@).subrange(start as int, end as int));
        join(&part, "\n")
    } else {
        String::new()
    }
}

/// The text of a range by its bytes, where it has some that lie in the text.
pub open spec fn bytes_snippet(content: Seq<char>, range: SourceRange) -> Option<Seq<char>> {
    match range.bytes {
        Some(b) if b.start <= b.end <= byte_len(content) => Some(
            bytes_text(content, b.start as int, b.end as int),
        ),
        _ => None,
    }
}

/// The text of a range by its bytes, where it has some that lie in the text.
pub fn read_range_snippet(content: &str, range: &SourceRange) -> (r: Option<String>)
    requires
        bytes_on_boundaries(content@, *range),
    ensures
        match r {
            Some(t) => bytes_snippet(content@, *range) == Some(t@),
            None => bytes_snippet(content@, *range) is None,
        },
{
    let size: usize = content.as_bytes().len();
    match range.bytes {
        Some(b) => if b.start <= b.end && b.end <= size {
            slice_bytes(content, b.start, b.end)
        } else {
            None
        },
        None => None,
    }
}

/// The ends of a piece of source text, with columns in characters.
#[derive(Debug, Clone, Copy, PartialEq, Eq, Structural)]
pub struct Span {
    pub start: Position,
    pub end: Position,
}

impl Span {
    /// The span between two ends.
    pub fn between(line: usize, column: usize, end_line: usize, end_column: usize) -> (r: Span)
        ensures
            r.start == (Position { line: line as u64, column: column as u64 }),
            r.end == (Position { line: end_line as u64, column: end_column as u64 }),
    {
        Span {
            start: Position { line: line as u64, column: column as u64 },
            end: Position { line: end_line as u64, column: end_column as u64 },
        }
    }
}

/// The range of a span: its ends, and its bytes where both ends name places, the second not before
/// the first.
pub open spec fn span_range(content: Seq<char>, span: Span) -> SourceRange {
    SourceRange {
        start: span.start,
        end: span.end,
        bytes: match (
            char_byte(content, span.start.line as int, span.start.column as int),
            char_byte(content, span.end.line as int, span.end.column as int),
        ) {
            (Some(a), Some(b)) if b >= a => Some(
                ByteRange { start: a as usize, end: b as usize },
            ),
            _ => None,
        },
    }
}

/// The range of a span.
pub fn range_from_span(content: &str, span: Span) -> (r: SourceRange)
    ensures
        r == span_range(content@, span),
        bytes_on_boundaries(content@, r),
{
    let from: Option<usize> = char_column_to_byte(content, span.start.line, span.start.column);
    let to: Option<usize> = char_column_to_byte(content, span.end.line, span.end.column);
    let bytes: Option<ByteRange> = match (from, to) {
        (Some(a), Some(b)) => if b >= a {
            Some(ByteRange { start: a, end: b })
        } else {
            None
        },
        _ => None,
    };
    SourceRange { start: span.start, end: span.end, bytes }
}

} // verus!
