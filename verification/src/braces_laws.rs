//! Where blocks end, said of the brackets that are open.

use vstd::prelude::*;
use vstd::utf8::encode_utf8;
use crate::braces::{closing_line, indent, scanned, tallied};
use crate::bytes::lemma_encode_split;
use crate::text::{is_space, trimmed, trimmed_start};
use crate::text_laws::{all_space, law_trimmed, lemma_start};

verus! {

/// How many more `a` than `b` a text holds.
pub open spec fn surplus(s: Seq<char>, a: char, b: char) -> int
    decreases s.len(),
{
    if s.len() == 0 {
        0
    } else {
        (if s[0] == a {
            1int
        } else if s[0] == b {
            -1int
        } else {
            0int
        }) + surplus(s.drop_first(), a, b)
    }
}

/// The surplus of two texts is that of both together.
pub proof fn lemma_surplus_join(s: Seq<char>, t: Seq<char>, a: char, b: char)
    ensures
        surplus(s + t, a, b) == surplus(s, a, b) + surplus(t, a, b),
    decreases s.len(),
{
    if s.len() == 0 {
        assert(s + t =~= t);
    } else {
        lemma_surplus_join(s.drop_first(), t, a, b);
        assert((s + t).drop_first() =~= s.drop_first() + t);
    }
}

/// Whether the brace at position `c` of a line closes the outermost block, with `depth` braces
/// open before the line.
pub open spec fn closes(line: Seq<char>, depth: int, c: int) -> bool {
    0 <= c < line.len() && line[c] == '}' && depth + surplus(line.take(c), '{', '}') == 1
}

proof fn lemma_closes_later(line: Seq<char>, depth: int, c: int)
    requires
        0 < c < line.len(),
    ensures
        closes(line, depth, c) == closes(
            line.drop_first(),
            depth + surplus(seq![line[0]], '{', '}'),
            c - 1,
        ),
{
    let t = line.drop_first();
    assert(line.take(c) =~= seq![line[0]] + t.take(c - 1));
    lemma_surplus_join(seq![line[0]], t.take(c - 1), '{', '}');
}

proof fn lemma_scanned(line: Seq<char>, depth: int, opened: bool)
    requires
        depth > 0 ==> opened,
    ensures
        ({
            let r = scanned(line, depth, opened);
            &&& r.2 ==> exists|c: int| #[trigger] closes(line, depth, c)
            &&& !r.2 ==> r.0 == depth + surplus(line, '{', '}') && (r.0 > 0 ==> r.1) && forall|c: int|
                !#[trigger] closes(line, depth, c)
        }),
    decreases line.len(),
{
    if line.len() > 0 {
        let x = line[0];
        let t = line.drop_first();
        assert(seq![x].drop_first() =~= Seq::<char>::empty());
        assert(surplus(Seq::<char>::empty(), '{', '}') == 0);
        let d = depth + surplus(seq![x], '{', '}');
        assert(line.take(0) =~= Seq::<char>::empty());
        if x == '}' && depth == 1 {
            assert(closes(line, depth, 0));
        } else {
            assert(!closes(line, depth, 0));
            let o = opened || x == '{';
            lemma_scanned(t, d, o);
            if scanned(line, depth, opened).2 {
                let c = choose|c: int| #[trigger] closes(t, d, c);
                lemma_closes_later(line, depth, c + 1);
                assert(closes(line, depth, c + 1));
            } else {
                assert forall|c: int| !#[trigger] closes(line, depth, c) by {
                    if 0 < c < line.len() {
                        lemma_closes_later(line, depth, c);
                    }
                }
            }
        }
    }
}

/// How many more braces are opened than closed on the lines from `i` up to `j`.
pub open spec fn open_before(ls: Seq<Seq<char>>, i: int, j: int) -> int
    decreases j - i,
{
    if i >= j {
        0
    } else {
        surplus(ls[i], '{', '}') + open_before(ls, i + 1, j)
    }
}

/// Whether the brace at position `c` of line `j` closes the outermost block, with `depth` braces
/// open before line `i`: one brace is open before it.
pub open spec fn closes_from(ls: Seq<Seq<char>>, i: int, depth: int, j: int, c: int) -> bool {
    i <= j < ls.len() && closes(ls[j], depth + open_before(ls, i, j), c)
}

/// Whether the brace at position `c` of line `j` closes the first block that is opened on the
/// lines from `i` on.
pub open spec fn closes_on(ls: Seq<Seq<char>>, i: int, j: int, c: int) -> bool {
    closes_from(ls, i, 0, j, c)
}

proof fn lemma_closing(ls: Seq<Seq<char>>, i: int, depth: int, opened: bool)
    requires
        0 <= i,
        depth > 0 ==> opened,
    ensures
        match closing_line(ls, i, depth, opened, false) {
            Some(j) => i <= j < ls.len() && (exists|c: int| #[trigger]
                closes_from(ls, i, depth, j, c)) && forall|k: int, c: int|
                k < j ==> !#[trigger] closes_from(ls, i, depth, k, c),
            None => forall|k: int, c: int| !#[trigger] closes_from(ls, i, depth, k, c),
        },
    decreases ls.len() - i,
{
    if i < ls.len() {
        lemma_scanned(ls[i], depth, opened);
        let after = scanned(ls[i], depth, opened);
        assert(open_before(ls, i, i) == 0);
        if after.2 {
            let c = choose|c: int| #[trigger] closes(ls[i], depth, c);
            assert(closes_from(ls, i, depth, i, c));
        } else {
            lemma_closing(ls, i + 1, after.0, after.1);
            assert forall|k: int, c: int| k != i implies #[trigger] closes_from(ls, i, depth, k, c)
                == closes_from(ls, i + 1, after.0, k, c) by {}
            match closing_line(ls, i, depth, opened, false) {
                Some(j) => {
                    let c = choose|c: int| #[trigger] closes_from(ls, i + 1, after.0, j, c);
                    assert(closes_from(ls, i, depth, j, c));
                },
                None => {},
            }
        }
    }
}

/// The line that closes a block holds a brace before which one is open, counted from the line on
/// that is searched first, and no line before it holds such a brace; where no line holds one,
/// none is found.
pub proof fn law_closing_line(ls: Seq<Seq<char>>, i: int)
    requires
        0 <= i,
    ensures
        match closing_line(ls, i, 0, false, false) {
            Some(j) => (exists|c: int| #[trigger] closes_on(ls, i, j, c)) && forall|k: int, c: int|
                k < j ==> !#[trigger] closes_on(ls, i, k, c),
            None => forall|k: int, c: int| !#[trigger] closes_on(ls, i, k, c),
        },
{
    lemma_closing(ls, i, 0, false);
    match closing_line(ls, i, 0, false, false) {
        Some(j) => {
            let c = choose|c: int| #[trigger] closes_from(ls, i, 0, j, c);
            assert(closes_on(ls, i, j, c));
        },
        None => {},
    }
}

proof fn lemma_halting(ls: Seq<Seq<char>>, i: int, depth: int, opened: bool)
    ensures
        closing_line(ls, i, depth, opened, true) is Some ==> closing_line(ls, i, depth, opened, true)
            == closing_line(ls, i, depth, opened, false),
    decreases ls.len() - i,
{
    if i < ls.len() {
        let after = scanned(ls[i], depth, opened);
        lemma_halting(ls, i + 1, after.0, after.1);
    }
}

/// A search that gives up early finds the line that a full search finds, or none.
pub proof fn law_halting_search(ls: Seq<Seq<char>>, i: int)
    ensures
        closing_line(ls, i, 0, false, true) matches Some(j) ==> closing_line(ls, i, 0, false, false)
            == Some(j),
{
    lemma_halting(ls, i, 0, false);
}

/// How many `a` are open at the end of a text, where a `b` that nothing is open before counts for
/// nothing: as many as in the part from some place on that leaves the most open.
pub open spec fn are_open(s: Seq<char>, before: int, a: char, b: char, n: int) -> bool {
    &&& n >= before + surplus(s, a, b)
    &&& forall|k: int| 0 <= k <= s.len() ==> n >= surplus(#[trigger] s.skip(k), a, b)
    &&& n == before + surplus(s, a, b) || exists|k: int|
        0 <= k <= s.len() && n == surplus(#[trigger] s.skip(k), a, b)
}

proof fn lemma_open_more(s: Seq<char>, before: int, next: int, a: char, b: char, n: int)
    requires
        a != b,
        s.len() > 0,
        before >= 0,
        next == (if s[0] == a {
            before + 1
        } else if s[0] == b {
            if before > 0 {
                before - 1
            } else {
                0
            }
        } else {
            before
        }),
        are_open(s.drop_first(), next, a, b, n),
    ensures
        are_open(s, before, a, b, n),
{
    let t = s.drop_first();
    assert(s.skip(0) =~= s);
    assert(t.skip(0) =~= t);
    assert forall|k: int| 0 <= k <= s.len() implies n >= surplus(#[trigger] s.skip(k), a, b) by {
        if k > 0 {
            assert(s.skip(k) =~= t.skip(k - 1));
        }
    }
    if n != before + surplus(s, a, b) {
        if n == next + surplus(t, a, b) {
            assert(s.skip(1) =~= t);
            assert(n == surplus(s.skip(1), a, b));
        } else {
            let k = choose|k: int| 0 <= k <= t.len() && n == surplus(#[trigger] t.skip(k), a, b);
            assert(s.skip(k + 1) =~= t.skip(k));
            assert(n == surplus(s.skip(k + 1), a, b));
        }
    }
}

/// What is open behind a text: braces and parentheses, where a closing one that nothing is open
/// before counts for nothing, and whether a brace was ever opened.
pub proof fn law_tallied(s: Seq<char>, braces: nat, parens: nat, opened: bool)
    ensures
        ({
            let r = tallied(s, braces, parens, opened);
            &&& are_open(s, braces as int, '{', '}', r.0 as int)
            &&& are_open(s, parens as int, '(', ')', r.1 as int)
            &&& r.2 == (opened || s.contains('{'))
        }),
    decreases s.len(),
{
    if s.len() == 0 {
        assert(s.skip(0) =~= s);
    } else {
        let x = s[0];
        let t = s.drop_first();
        let b = if x == '{' {
            braces + 1
        } else if x == '}' {
            if braces > 0 {
                (braces - 1) as nat
            } else {
                0
            }
        } else {
            braces
        };
        let p = if x == '(' {
            parens + 1
        } else if x == ')' {
            if parens > 0 {
                (parens - 1) as nat
            } else {
                0
            }
        } else {
            parens
        };
        let o = opened || x == '{';
        law_tallied(t, b, p, o);
        let r = tallied(s, braces, parens, opened);
        assert(r == tallied(t, b, p, o));
        lemma_open_more(s, braces as int, b as int, '{', '}', r.0 as int);
        lemma_open_more(s, parens as int, p as int, '(', ')', r.1 as int);
        assert(s.contains('{') == (x == '{' || t.contains('{'))) by {
            if s.contains('{') {
                let i = choose|i: int| 0 <= i < s.len() && s[i] == '{';
                if i > 0 {
                    assert(t[i - 1] == '{');
                }
            }
            if t.contains('{') {
                let i = choose|i: int| 0 <= i < t.len() && t[i] == '{';
                assert(s[i + 1] == '{');
            }
            if x == '{' {
                assert(s[0] == '{');
            }
        }
    }
}

/// What is open behind two texts is what the second one leaves open of what the first one does.
pub proof fn lemma_tallied_join(s: Seq<char>, t: Seq<char>, braces: nat, parens: nat, opened: bool)
    ensures
        tallied(s + t, braces, parens, opened) == {
            let r = tallied(s, braces, parens, opened);
            tallied(t, r.0, r.1, r.2)
        },
    decreases s.len(),
{
    if s.len() == 0 {
        assert(s + t =~= t);
    } else {
        let x = s[0];
        let d = s.drop_first();
        assert((s + t).drop_first() =~= d + t);
        assert((s + t)[0] == x);
        let b = if x == '{' {
            braces + 1
        } else if x == '}' {
            if braces > 0 {
                (braces - 1) as nat
            } else {
                0
            }
        } else {
            braces
        };
        let p = if x == '(' {
            parens + 1
        } else if x == ')' {
            if parens > 0 {
                (parens - 1) as nat
            } else {
                0
            }
        } else {
            parens
        };
        lemma_tallied_join(d, t, b, p, opened || x == '{');
    }
}

/// The characters of the lines from `i` up to `j`.
pub open spec fn chars_of_lines(ls: Seq<Seq<char>>, i: int, j: int) -> Seq<char>
    decreases j - i,
{
    if i >= j {
        Seq::empty()
    } else {
        chars_of_lines(ls, i, j - 1) + ls[j - 1]
    }
}

/// Whether a block was opened on the lines from `i` to `j`, and all that was opened there, braces
/// and parentheses, is closed again.
pub open spec fn is_closed(ls: Seq<Seq<char>>, i: int, j: int) -> bool {
    let s = chars_of_lines(ls, i, j + 1);
    &&& s.contains('{')
    &&& are_open(s, 0, '{', '}', 0)
    &&& are_open(s, 0, '(', ')', 0)
}

/// That all is closed is what the state behind a text shows.
pub proof fn lemma_is_closed(ls: Seq<Seq<char>>, i: int, j: int)
    ensures
        is_closed(ls, i, j) == (tallied(chars_of_lines(ls, i, j + 1), 0, 0, false) == (
            0nat,
            0nat,
            true,
        )),
{
    let s = chars_of_lines(ls, i, j + 1);
    law_tallied(s, 0, 0, false);
    let r = tallied(s, 0, 0, false);
    lemma_open_once(s, 0, '{', '}', 0, r.0 as int);
    lemma_open_once(s, 0, '(', ')', 0, r.1 as int);
}

proof fn lemma_open_once(s: Seq<char>, before: int, a: char, b: char, n: int, m: int)
    ensures
        are_open(s, before, a, b, n) && are_open(s, before, a, b, m) ==> n == m,
{
}

/// The indent of a line is how many bytes the white space takes with which it begins.
pub proof fn law_indent(line: Seq<char>)
    ensures
        exists|n: int|
            0 <= n <= line.len() && all_space(line, 0, n) && (n < line.len() ==> !is_space(line[n]))
                && indent(line) == encode_utf8(#[trigger] line.take(n)).len(),
{
    lemma_start(line);
    let n = line.len() - trimmed_start(line).len();
    lemma_encode_split(line, n);
    assert(indent(line) == encode_utf8(line.take(n)).len());
}

/// A line is blank where it holds nothing but white space.
pub proof fn law_blank(line: Seq<char>)
    ensures
        (trimmed(line).len() == 0) == all_space(line, 0, line.len() as int),
{
    law_trimmed(line);
    let (a, b) = choose|a: int, b: int|
        0 <= a <= b <= line.len() && trimmed(line) == #[trigger] line.subrange(a, b) && all_space(line, 0, a)
            && all_space(line, b, line.len() as int) && (a < b ==> !is_space(line[a]) && !is_space(
            line[b - 1],
        ));
    if a < b {
        assert(!is_space(line[a]));
    } else {
        assert forall|i: int| 0 <= i < line.len() implies is_space(#[trigger] line[i]) by {}
    }
}

} // verus!
