//! What is copied of a file, said of its lines.

use vstd::prelude::*;
use crate::braces::{indent, tallied};
use crate::braces_laws::{chars_of_lines, is_closed, law_tallied, lemma_is_closed, lemma_tallied_join};
use crate::text::{
    joined, lemma_lines_without_feeds, lemma_split_joined, lines, occurs, occurs_at, split, trimmed,
    without_char,
};
use crate::text_laws::all_space;
use crate::wcn::{end_from, first_true, hit_function, line_part, names_file, payload};

verus! {

proof fn lemma_python(ls: Seq<Seq<char>>, start: int, i: int, state: (nat, nat, bool))
    requires
        0 <= start <= i <= ls.len(),
        start < ls.len(),
        forall|k: int|
            start < k < i ==> trimmed(#[trigger] ls[k]).len() == 0 || indent(ls[k]) > indent(ls[start]),
    ensures
        ({
            let e = end_from(ls, start, i, state, true);
            &&& start <= e < ls.len()
            &&& e >= i - 1
            &&& forall|k: int|
                start < k <= e ==> trimmed(#[trigger] ls[k]).len() == 0 || indent(ls[k]) > indent(ls[start])
            &&& e + 1 < ls.len() ==> trimmed(ls[e + 1]).len() > 0 && indent(ls[e + 1]) <= indent(ls[start])
        }),
    decreases ls.len() - i,
{
    if i < ls.len() {
        let next = tallied(ls[i], state.0, state.1, state.2);
        if !(i > start && trimmed(ls[i]).len() > 0 && indent(ls[i]) <= indent(ls[start])) {
            lemma_python(ls, start, i + 1, next);
        }
    }
}

/// A function of Python has behind its first line the lines that are blank or indented deeper than
/// it; the line behind its end, where there is one, is neither.
pub proof fn law_python_function_is_indented(ls: Seq<Seq<char>>, start: int)
    requires
        0 <= start < ls.len(),
    ensures
        ({
            let e = end_from(ls, start, start, (0nat, 0nat, false), true);
            &&& start <= e < ls.len()
            &&& forall|k: int|
                start < k <= e ==> all_space(#[trigger] ls[k], 0, ls[k].len() as int) || indent(ls[k]) > indent(
                    ls[start],
                )
            &&& e + 1 < ls.len() ==> !all_space(ls[e + 1], 0, ls[e + 1].len() as int) && indent(ls[e + 1])
                <= indent(ls[start])
        }),
{
    lemma_python(ls, start, start, (0nat, 0nat, false));
    let e = end_from(ls, start, start, (0nat, 0nat, false), true);
    assert forall|k: int| start < k <= e implies all_space(#[trigger] ls[k], 0, ls[k].len() as int) || indent(
        ls[k],
    ) > indent(ls[start]) by {
        crate::braces_laws::law_blank(ls[k]);
    }
    if e + 1 < ls.len() {
        crate::braces_laws::law_blank(ls[e + 1]);
    }
}

/// Whether line `i` ends a declaration that begins on line `start`, before any block: it is not
/// the first line, it holds a semicolon, and no brace was opened.
pub open spec fn ends_declaration(ls: Seq<Seq<char>>, start: int, i: int) -> bool {
    i > start && ls[i].contains(';') && !chars_of_lines(ls, start, i + 1).contains('{')
}

/// Whether a function that begins on line `start` goes on behind line `i`: no block was opened, or
/// something is open, and the line ends no declaration.
pub open spec fn goes_on(ls: Seq<Seq<char>>, start: int, i: int) -> bool {
    !is_closed(ls, start, i) && !ends_declaration(ls, start, i)
}

proof fn lemma_block(ls: Seq<Seq<char>>, start: int, i: int)
    requires
        0 <= start <= i <= ls.len(),
        start < ls.len(),
        forall|k: int|
            start <= k < i ==> #[trigger] goes_on(ls, start, k),
    ensures
        ({
            let e = end_from(ls, start, i, tallied(chars_of_lines(ls, start, i), 0, 0, false), false);
            &&& start <= e < ls.len()
            &&& forall|k: int|
                start <= k < e ==> #[trigger] goes_on(ls, start, k)
            &&& !goes_on(ls, start, e) || e == ls.len() - 1
        }),
    decreases ls.len() - i,
{
    if i < ls.len() {
        let s = chars_of_lines(ls, start, i);
        let state = tallied(s, 0, 0, false);
        let t = chars_of_lines(ls, start, i + 1);
        assert(t == s + ls[i]);
        lemma_tallied_join(s, ls[i], 0, 0, false);
        let next = tallied(ls[i], state.0, state.1, state.2);
        assert(next == tallied(t, 0, 0, false));
        lemma_is_closed(ls, start, i);
        law_tallied(t, 0, 0, false);
        assert(next.2 == t.contains('{'));
        if ls[i].contains('{') {
            let k = choose|k: int| 0 <= k < ls[i].len() && ls[i][k] == '{';
            assert(t[s.len() + k] == '{');
            assert(t.contains('{'));
        }
        assert(is_closed(ls, start, i) == (next == (0nat, 0nat, true)));
        assert(ends_declaration(ls, start, i) ==> !ls[i].contains('{'));
        if next != (0nat, 0nat, true) && !(!next.2 && i > start && ls[i].contains(';') && !ls[i].contains('{')) {
            assert(goes_on(ls, start, i));
            lemma_block(ls, start, i + 1);
        } else {
            assert(end_from(ls, start, i, state, false) == i);
            assert(!goes_on(ls, start, i));
        }
    }
}

/// A function of the other languages ends on the first line behind which a block was opened and
/// all braces and parentheses are closed again, or that ends a declaration without a block; on the
/// last line of the text where there is none.
pub proof fn law_function_ends_where_all_is_closed(ls: Seq<Seq<char>>, start: int)
    requires
        0 <= start < ls.len(),
    ensures
        ({
            let e = end_from(ls, start, start, (0nat, 0nat, false), false);
            &&& start <= e < ls.len()
            &&& forall|k: int|
                start <= k < e ==> #[trigger] goes_on(ls, start, k)
            &&& !goes_on(ls, start, e) || e == ls.len() - 1
        }),
{
    assert(chars_of_lines(ls, start, start) =~= Seq::<char>::empty());
    assert(tallied(Seq::<char>::empty(), 0, 0, false) == (0nat, 0nat, false));
    lemma_block(ls, start, start);
}

proof fn lemma_first(v: Seq<bool>, i: int)
    requires
        0 <= i,
    ensures
        match first_true(v, i) {
            Some(k) => i <= k < v.len() && v[k] && forall|j: int| i <= j < k ==> !v[j],
            None => forall|j: int| i <= j < v.len() ==> !v[j],
        },
    decreases v.len() - i,
{
    if i < v.len() && !v[i] {
        lemma_first(v, i + 1);
    }
}

proof fn lemma_lines_joined(ls: Seq<Seq<char>>, a: int, b: int)
    requires
        without_char(ls, '\n'),
        0 <= a < b <= ls.len(),
    ensures
        split(joined(ls.subrange(a, b), "\n"@), '\n') == ls.subrange(a, b),
{
    let part = ls.subrange(a, b);
    assert forall|i: int, j: int| 0 <= i < part.len() && 0 <= j < part[i].len() implies #[trigger] part[i][j]
        != '\n' by {
        assert(part[i] == ls[a + i]);
    }
    reveal_strlit("\n");
    assert("\n"@ =~= seq!['\n']);
    lemma_split_joined(part, '\n');
}

/// The function that is copied begins on the first line that was hit and has its lines one after
/// the other; none is copied only where no line was hit.
pub proof fn law_first_hit_is_copied(ls: Seq<Seq<char>>, hit: Seq<bool>, python: bool)
    requires
        hit.len() == ls.len(),
        without_char(ls, '\n'),
    ensures
        match hit_function(ls, hit, python) {
            Some(t) => exists|k: int|
                0 <= k < ls.len() && #[trigger] hit[k] && (forall|j: int| 0 <= j < k ==> !#[trigger] hit[j]) && {
                    let e = end_from(ls, k, k, (0nat, 0nat, false), python);
                    &&& split(t, '\n').len() == e + 1 - k
                    &&& forall|i: int| k <= i <= e ==> #[trigger] ls[i] == split(t, '\n')[i - k]
                },
            None => forall|j: int| 0 <= j < ls.len() ==> !#[trigger] hit[j],
        },
{
    lemma_first(hit, 0);
    match first_true(hit, 0) {
        Some(k) => {
            let e = end_from(ls, k, k, (0nat, 0nat, false), python);
            if python {
                law_python_function_is_indented(ls, k);
            } else {
                law_function_ends_where_all_is_closed(ls, k);
            }
            lemma_lines_joined(ls, k, e + 1);
            let t = joined(ls.subrange(k, e + 1), "\n"@);
            assert(hit_function(ls, hit, python) == Some(t));
            assert forall|i: int| k <= i <= e implies #[trigger] ls[i] == split(t, '\n')[i - k] by {
                assert(ls.subrange(k, e + 1)[i - k] == ls[i]);
            }
            assert(hit[k]);
        },
        None => {},
    }
}

/// The first lines that are asked for are copied as they stand, and so are the last ones; a text
/// that has no more of them is copied whole.
pub proof fn law_lines_asked_for(content: Seq<char>, n: usize)
    requires
        n > 0,
        lines(content).len() > 0,
    ensures
        ({
            let all = lines(content);
            let m = if n < all.len() {
                n as int
            } else {
                all.len() as int
            };
            let first = split(line_part(content, Some(n), None), '\n');
            let last = split(line_part(content, None, Some(n)), '\n');
            &&& first.len() == m
            &&& last.len() == m
            &&& forall|i: int| 0 <= i < m ==> #[trigger] first[i] == all[i]
            &&& forall|i: int| 0 <= i < m ==> #[trigger] last[i] == all[all.len() - m + i]
        }),
        line_part(content, None, None) == content,
{
    let all = lines(content);
    let m = if n < all.len() {
        n as int
    } else {
        all.len() as int
    };
    lemma_lines_without_feeds(content);
    lemma_lines_joined(all, 0, m);
    lemma_lines_joined(all, all.len() - m, all.len() as int);
    assert(all.take(m) =~= all.subrange(0, m));
    assert(all.skip(all.len() - m) =~= all.subrange(all.len() - m, all.len() as int));
}

/// Where both the first and the last lines are asked for, they stand first and last, with a note
/// between them, unless they are all lines.
pub proof fn law_both_ends_are_copied(content: Seq<char>, head: usize, tail: usize)
    requires
        head > 0,
        tail > 0,
        head + tail < lines(content).len(),
    ensures
        ({
            let all = lines(content);
            let got = split(line_part(content, Some(head), Some(tail)), '\n');
            &&& got.len() == head + tail + 2
            &&& forall|i: int| 0 <= i < head ==> #[trigger] got[i] == all[i]
            &&& forall|i: int| 0 <= i < tail ==> #[trigger] got[head + 2 + i] == all[all.len() - tail + i]
        }),
{
    let all = lines(content);
    lemma_lines_without_feeds(content);
    let n = all.len() - head - tail;
    let note = "... ("@ + crate::text::dec(n as nat) + ") lines omitted ..."@;
    let a = all.take(head as int);
    let b = all.skip(all.len() - tail);
    let none = Seq::<char>::empty();
    let rows = a + seq![note, none] + b;
    reveal_strlit("\n... (");
    reveal_strlit("... (");
    reveal_strlit(") lines omitted ...\n");
    reveal_strlit(") lines omitted ...");
    reveal_strlit("\n");
    assert("\n"@ =~= seq!['\n']);
    assert("\n... ("@ =~= "\n"@ + "... ("@);
    assert(") lines omitted ...\n"@ =~= ") lines omitted ..."@ + "\n"@);
    crate::text::law_decimal_reads_back(n as nat);
    assert forall|i: int, j: int| 0 <= i < rows.len() && 0 <= j < rows[i].len() implies #[trigger] rows[i][j]
        != '\n' by {
        if i < head {
            assert(rows[i] == all[i]);
        } else if i == head {
            assert(rows[i] == note);
            let x = "... ("@.len() as int;
            let y = x + crate::text::dec(n as nat).len();
            if j < x {
                assert(note[j] == "... ("@[j]);
            } else if j < y {
                assert(note[j] == crate::text::dec(n as nat)[j - x]);
            } else {
                assert(note[j] == ") lines omitted ..."@[j - y]);
            }
        } else if i > head + 1 {
            assert(rows[i] == all[all.len() - tail + (i - head - 2)]);
        }
    }
    lemma_split_joined(rows, '\n');
    lemma_joined_rows(a, seq![note, none] + b);
    assert(a + (seq![note, none] + b) =~= rows);
    lemma_joined_rows(seq![note, none], b);
    assert(seq![note, none].drop_last() =~= seq![note]);
    assert(joined(seq![note], "\n"@) == note);
    assert(joined(seq![note, none], "\n"@) =~= note + "\n"@);
    assert(line_part(content, Some(head), Some(tail)) =~= joined(rows, "\n"@));
    assert forall|i: int| 0 <= i < tail implies #[trigger] rows[head + 2 + i] == all[all.len() - tail + i] by {}
}

proof fn lemma_joined_rows(a: Seq<Seq<char>>, b: Seq<Seq<char>>)
    requires
        a.len() > 0,
        b.len() > 0,
    ensures
        joined(a + b, "\n"@) == joined(a, "\n"@) + "\n"@ + joined(b, "\n"@),
    decreases b.len(),
{
    let all = a + b;
    if b.len() == 1 {
        assert(all.drop_last() =~= a);
    } else {
        lemma_joined_rows(a, b.drop_last());
        assert(all.drop_last() =~= a + b.drop_last());
        assert(joined(all, "\n"@) =~= joined(a, "\n"@) + "\n"@ + joined(b, "\n"@));
    }
}

/// The header of a file: a comment that names it and, where there is one, the time.
pub open spec fn header(filename: Seq<char>, prefix: Seq<char>, time: Option<Seq<char>>) -> Seq<char> {
    prefix + " "@ + filename + (match time {
        Some(t) => " # "@ + t,
        None => Seq::empty(),
    })
}

proof fn lemma_header(filename: Seq<char>, prefix: Seq<char>, time: Option<Seq<char>>)
    requires
        !filename.contains('\n'),
        !prefix.contains('\n'),
        !filename.contains('\r'),
        time matches Some(t) ==> !t.contains('\n'),
    ensures
        !header(filename, prefix, time).contains('\n'),
        occurs(crate::text::strip_return(header(filename, prefix, time)), filename),
{
    let stamp = match time {
        Some(t) => " # "@ + t,
        None => Seq::empty(),
    };
    reveal_strlit(" ");
    reveal_strlit(" # ");
    let h = header(filename, prefix, time);
    let a = prefix.len() as int;
    let b = a + 1 + filename.len();
    assert forall|i: int| 0 <= i < h.len() implies h[i] != '\n' by {
        if i < a {
            assert(h[i] == prefix[i]);
        } else if i == a {
        } else if i < b {
            assert(h[i] == filename[i - a - 1]);
        } else {
            assert(h[i] == stamp[i - b]);
            if i - b >= 3 {
                assert(stamp[i - b] == time->0[i - b - 3]);
            }
        }
    }
    assert(h.subrange(a + 1, a + 1 + filename.len()) =~= filename);
    if filename.len() > 0 && filename.last() == '\r' {
        assert(filename[filename.len() - 1] == '\r');
        assert(filename.contains('\r'));
    }
    lemma_named_first(h, filename, a + 1, stamp);
}

/// What is put on the clipboard ends with the text that is copied and has one of its first two
/// lines name the file; it is the text itself where that does so already, else the header and
/// then the text. Copied again it stays as it is.
pub proof fn law_payload_names_its_file(
    content: Seq<char>,
    filename: Seq<char>,
    prefix: Seq<char>,
    time: Option<Seq<char>>,
)
    requires
        !filename.contains('\n'),
        !prefix.contains('\n'),
        !filename.contains('\r'),
        time matches Some(t) ==> !t.contains('\n'),
    ensures
        ({
            let p = payload(content, filename, prefix, time);
            &&& names_file(p, filename)
            &&& names_file(content, filename) ==> p == content
            &&& !names_file(content, filename) ==> p == header(filename, prefix, time) + "\n"@ + content
            &&& payload(p, filename, prefix, time) == p
        }),
{
    let p = payload(content, filename, prefix, time);
    if !names_file(content, filename) {
        lemma_header(filename, prefix, time);
        let h = header(filename, prefix, time);
        assert(p == h + "\n"@ + content);
        lemma_first_line(h, content);
        assert(occurs(lines(p)[0], filename));
        assert(names_file(p, filename));
    }
}

proof fn lemma_first_line(h: Seq<char>, content: Seq<char>)
    requires
        !h.contains('\n'),
    ensures
        lines(h + "\n"@ + content).len() > 0,
        lines(h + "\n"@ + content)[0] == crate::text::strip_return(h),
{
    reveal_strlit("\n");
    let p = h + "\n"@ + content;
    assert forall|j: int| 0 <= j < h.len() implies p[j] != '\n' by {
        assert(p[j] == h[j]);
    }
    crate::text::lemma_index_of(p, '\n', h.len() as int);
    assert(p.take(h.len() as int) =~= h);
}

proof fn lemma_named_first(h: Seq<char>, filename: Seq<char>, a: int, stamp: Seq<char>)
    requires
        0 <= a,
        a + filename.len() + stamp.len() == h.len(),
        h.subrange(a, a + filename.len()) == filename,
        stamp.len() > 0 || filename.len() == 0 || filename.last() != '\r',
    ensures
        occurs(crate::text::strip_return(h), filename),
{
    let s = crate::text::strip_return(h);
    if stamp.len() == 0 && filename.len() > 0 {
        assert(h.last() == filename.last()) by {
            assert(h.subrange(a, a + filename.len())[filename.len() - 1] == h[h.len() - 1]);
        }
    }
    if filename.len() == 0 {
        assert(s.subrange(0, 0) =~= filename);
        assert(occurs_at(s, filename, 0));
    } else {
        assert(s.subrange(a, a + filename.len()) =~= filename);
        assert(occurs_at(s, filename, a));
    }
}

} // verus!
