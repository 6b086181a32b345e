//! What places and ranges of a text are, said of its lines and characters.

use vstd::prelude::*;
use vstd::utf8::{encode_utf8, encode_utf8_decode_utf8};
use crate::bytes::{byte_len, bytes_text, lemma_byte_order, lemma_encode_split};
use crate::ranges::{
    char_byte, column_byte, covers, is_at, is_at_byte, law_byte_places_are_unique, law_places_are_unique, line_range,
    snippet_text, span_range, Position, SourceRange, Span,
};
use crate::text::{joined, line_start, lines, newlines};
use crate::wcf_replace_laws::lemma_joined_lots;
use crate::wcgv::{place_byte, symbol_snippet};

verus! {

/// Whether a position is not behind another one.
pub open spec fn up_to(a: Position, b: Position) -> bool {
    a.line < b.line || (a.line == b.line && a.column <= b.column)
}

/// Two ranges, the second of which begins where the first ends, cover together what the range from
/// the start of the first to the end of the second covers, and no position twice.
pub proof fn law_ranges_side_by_side(a: Position, b: Position, c: Position, line: int, col: int)
    requires
        up_to(a, b),
        up_to(b, c),
    ensures
        ({
            let first = SourceRange { start: a, end: b, bytes: None };
            let second = SourceRange { start: b, end: c, bytes: None };
            let whole = SourceRange { start: a, end: c, bytes: None };
            &&& covers(whole, line, col) <==> covers(first, line, col) || covers(second, line, col)
            &&& !(covers(first, line, col) && covers(second, line, col))
            &&& a != b ==> covers(first, a.line as int, a.column as int)
            &&& !covers(first, b.line as int, b.column as int)
        }),
{
}

/// A line by itself is that line; lines that follow each other are those of both stretches, with a
/// line feed between them; what is asked for behind the last line is not there.
pub proof fn law_line_range(content: Seq<char>, a: int, m: int, b: int)
    requires
        1 <= a <= m < b <= lines(content).len(),
    ensures
        line_range(content, a, a) == lines(content)[a - 1],
        line_range(content, a, b) == line_range(content, a, m) + "\n"@ + line_range(content, m + 1, b),
        line_range(content, a, lines(content).len() as int + b) == line_range(
            content,
            a,
            lines(content).len() as int,
        ),
        line_range(content, 0, b) == line_range(content, 1, b),
        line_range(content, b, a) == Seq::<char>::empty(),
{
    let all = lines(content);
    assert(all.subrange(a - 1, a) =~= seq![all[a - 1]]);
    assert(joined(seq![all[a - 1]], "\n"@) == all[a - 1]);
    let x = all.subrange(a - 1, m);
    let y = all.subrange(m, b);
    assert(all.subrange(a - 1, b) =~= x + y);
    lemma_joined_lots(x, y, "\n"@);
}

/// A place of a text is found again by its line and by how many characters stand before it there.
pub proof fn law_char_byte(s: Seq<char>, k: int)
    requires
        0 <= k <= s.len(),
    ensures
        char_byte(s, 1int + newlines(s.take(k)), k - line_start(s, k)) == Some(byte_len(s.take(k)) as int),
{
    let line = 1int + newlines(s.take(k));
    let column = k - line_start(s, k);
    assert(is_at(s, k, line, column));
    let j = choose|k: int| #[trigger] is_at(s, k, line, column);
    law_places_are_unique(s, j, k, line, column);
}

/// A place of a text is found again by its line and by how many bytes stand before it there.
pub proof fn law_column_byte(s: Seq<char>, k: int)
    requires
        0 <= k <= s.len(),
    ensures
        column_byte(
            s,
            1int + newlines(s.take(k)),
            byte_len(s.take(k)) - byte_len(s.take(line_start(s, k))),
        ) == Some(byte_len(s.take(k)) as int),
{
    let line = 1int + newlines(s.take(k));
    let column = byte_len(s.take(k)) - byte_len(s.take(line_start(s, k)));
    assert(is_at_byte(s, k, line, column));
    let j = choose|k: int| #[trigger] is_at_byte(s, k, line, column);
    law_byte_places_are_unique(s, j, k, line, column);
}

proof fn lemma_bytes_between(s: Seq<char>, i: int, j: int)
    requires
        0 <= i <= j <= s.len(),
    ensures
        byte_len(s.take(i)) <= byte_len(s.take(j)) <= byte_len(s),
        bytes_text(s, byte_len(s.take(i)) as int, byte_len(s.take(j)) as int) == s.subrange(i, j),
{
    let mid = s.subrange(i, j);
    lemma_byte_order(s, i, j);
    lemma_byte_order(s, j, s.len() as int);
    assert(s.take(s.len() as int) =~= s);
    lemma_encode_split(s, j);
    lemma_encode_split(s.take(j), i);
    assert(s.take(j).take(i) =~= s.take(i));
    assert(s.take(j).skip(i) =~= mid);
    assert(encode_utf8(s).subrange(byte_len(s.take(i)) as int, byte_len(s.take(j)) as int) =~= encode_utf8(mid));
    encode_utf8_decode_utf8(mid);
}

/// Whether a position is that of place `k` of a text, columns counted in characters.
pub open spec fn names_place(s: Seq<char>, k: int, p: Position) -> bool {
    p.line == 1int + newlines(s.take(k)) && p.column == k - line_start(s, k)
}

/// Whether a position is that of place `k` of a text, columns counted in bytes.
pub open spec fn names_byte_place(s: Seq<char>, k: int, p: Position) -> bool {
    p.line == 1int + newlines(s.take(k)) && p.column == byte_len(s.take(k)) - byte_len(
        s.take(line_start(s, k)),
    )
}

/// The text of a span is what stands between its ends.
pub proof fn law_snippet_of_a_span(s: Seq<char>, i: int, j: int, span: Span)
    requires
        0 <= i <= j <= s.len(),
        byte_len(s) <= usize::MAX,
        names_place(s, i, span.start),
        names_place(s, j, span.end),
    ensures
        snippet_text(s, span_range(s, span)) == s.subrange(i, j),
{
    law_char_byte(s, i);
    law_char_byte(s, j);
    lemma_bytes_between(s, i, j);
}

/// The text of a symbol is what stands between the ends of its range; an end that names no place
/// stands for the end of the text.
pub proof fn law_snippet_of_a_symbol(s: Seq<char>, i: int, j: int, range: SourceRange)
    requires
        0 <= i <= j <= s.len(),
        names_byte_place(s, i, range.start),
    ensures
        names_byte_place(s, j, range.end) ==> symbol_snippet(s, range) == Some(s.subrange(i, j)),
        place_byte(s, range.end.line as int, range.end.column as int) is None ==> symbol_snippet(s, range)
            == Some(s.skip(i)),
{
    law_column_byte(s, i);
    law_column_byte(s, j);
    lemma_bytes_between(s, i, j);
    lemma_bytes_between(s, i, s.len() as int);
    assert(s.take(s.len() as int) =~= s);
    assert(s.subrange(i, s.len() as int) =~= s.skip(i));
}

} // verus!
