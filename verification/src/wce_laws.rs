//! What a report on the errors of a build holds, said of the errors and of the source.

use vstd::prelude::*;
use crate::braces::closing_line;
use crate::braces_laws::{closes_on, law_closing_line};
use crate::sieve::{is_sieved, lemma_sieve_more, lemma_sieve_nothing, lemma_sieved};
use crate::syntax::{impl_block, ItemKind, ItemText};
use crate::text::{dec, lemma_split_joined, number, occurs, occurs_at, split, without_char};
use crate::wce::{
    all_functions, enclosing, error_at, error_shown, errors_of, errors_shown, function_body, function_end,
    function_shown, functions_among, next_location, snippet, snippet_rows, ErrorText, FunctionText,
};

verus! {

/// The functions among the members of a block are those members whose kind is a function, all of
/// them, in order.
pub proof fn law_members_that_are_functions(v: Seq<ItemText>)
    ensures
        is_sieved(
            v,
            functions_among(v),
            |x: ItemText| x.kind == ItemKind::Function,
            |x: ItemText| x,
        ),
        forall|i: int|
            0 <= i < v.len() && (#[trigger] v[i]).kind == ItemKind::Function ==> functions_among(v).contains(
                v[i],
            ),
        forall|k: int|
            0 <= k < functions_among(v).len() ==> v.contains(#[trigger] functions_among(v)[k])
                && functions_among(v)[k].kind == ItemKind::Function,
    decreases v.len(),
{
    let keep = |x: ItemText| x.kind == ItemKind::Function;
    let give = |x: ItemText| x;
    let f = functions_among(v);
    if v.len() == 0 {
        lemma_sieve_nothing(v, f, keep, give);
    } else {
        law_members_that_are_functions(v.drop_last());
        lemma_sieve_more(v, functions_among(v.drop_last()), f, keep, give);
    }
    lemma_sieved(v, f, keep, give);
    assert forall|i: int| 0 <= i < v.len() && (#[trigger] v[i]).kind == ItemKind::Function implies f.contains(
        v[i],
    ) by {
        assert(keep(v[i]));
        assert(f.contains(give(v[i])));
    }
}

/// Whether `f` is a function of a source text: one of its items, or a member of one of its `impl`
/// blocks.
pub open spec fn is_function_of(content: Seq<char>, items: Seq<ItemText>, f: ItemText) -> bool {
    f.kind == ItemKind::Function && (items.contains(f) || exists|i: int|
        0 <= i < items.len() && (#[trigger] items[i]).kind == ItemKind::Impl && (impl_block(
            content,
            i as nat,
        ) matches Some(b) && b.members.contains(f)))
}

/// Every function of a source text is found, the methods of all its `impl` blocks too, and nothing
/// else is.
pub proof fn law_every_function_is_found(content: Seq<char>, items: Seq<ItemText>, f: ItemText)
    ensures
        all_functions(content, items).contains(f) <==> is_function_of(content, items, f),
    decreases items.len(),
{
    let all = all_functions(content, items);
    if items.len() > 0 {
        let d = items.drop_last();
        let n = items.len() - 1;
        let earlier = all_functions(content, d);
        law_every_function_is_found(content, d, f);
        let last = items.last();
        let more = match last.kind {
            ItemKind::Function => seq![last],
            ItemKind::Impl => match impl_block(content, n as nat) {
                Some(b) => functions_among(b.members),
                None => Seq::empty(),
            },
            _ => Seq::empty(),
        };
        assert(all == earlier + more);
        match impl_block(content, n as nat) {
            Some(b) => {
                law_members_that_are_functions(b.members);
            },
            None => {},
        }
        if all.contains(f) {
            let k = choose|k: int| 0 <= k < all.len() && all[k] == f;
            if k < earlier.len() {
                assert(earlier[k] == f);
                if d.contains(f) {
                    let i = choose|i: int| 0 <= i < d.len() && d[i] == f;
                    assert(items[i] == f);
                } else {
                    let i = choose|i: int|
                        0 <= i < d.len() && (#[trigger] d[i]).kind == ItemKind::Impl && (impl_block(
                            content,
                            i as nat,
                        ) matches Some(b) && b.members.contains(f));
                    assert(items[i].kind == ItemKind::Impl);
                }
            } else {
                assert(more[k - earlier.len()] == f);
                assert(items[n] == last);
            }
        }
        if is_function_of(content, items, f) {
            if items.contains(f) {
                let i = choose|i: int| 0 <= i < items.len() && items[i] == f;
                if i < n {
                    assert(d[i] == f);
                    let k = choose|k: int| 0 <= k < earlier.len() && earlier[k] == f;
                    assert(all[k] == f);
                } else {
                    assert(all[earlier.len() as int] == f);
                }
            } else {
                let i = choose|i: int|
                    0 <= i < items.len() && (#[trigger] items[i]).kind == ItemKind::Impl && (impl_block(
                        content,
                        i as nat,
                    ) matches Some(b) && b.members.contains(f));
                if i < n {
                    assert(d[i].kind == ItemKind::Impl);
                    let k = choose|k: int| 0 <= k < earlier.len() && earlier[k] == f;
                    assert(all[k] == f);
                } else {
                    let b = impl_block(content, n as nat)->0;
                    let j = choose|j: int| 0 <= j < b.members.len() && b.members[j] == f;
                    assert(b.members[j].kind == ItemKind::Function);
                    assert(more.contains(f));
                    let k = choose|k: int| 0 <= k < more.len() && more[k] == f;
                    assert(all[earlier.len() + k] == f);
                }
            }
        }
    }
}

/// Whether a line lies between the first and the last line of a function.
pub open spec fn lies_in(ls: Seq<Seq<char>>, f: ItemText, line: int) -> bool {
    f.line <= line <= function_end(ls, f.line as int)
}

/// Whether `r` tells the function `f`: its name, its lines and its text, and how it was declared.
pub open spec fn tells_function(ls: Seq<Seq<char>>, f: ItemText, r: FunctionText) -> bool {
    &&& r.name == f.name
    &&& r.start_line == f.line
    &&& r.end_line as int == function_end(ls, f.line as int)
    &&& r.is_pub == f.is_pub
    &&& r.is_async == f.is_async
    &&& r.body == function_body(ls, f.line as int, function_end(ls, f.line as int))
}

proof fn lemma_enclosing(ls: Seq<Seq<char>>, spans: Seq<ItemText>, line: int, i: int)
    requires
        0 <= i,
    ensures
        match enclosing(ls, spans, line, i) {
            Some(r) => exists|k: int|
                i <= k < spans.len() && lies_in(ls, #[trigger] spans[k], line) && tells_function(
                    ls,
                    spans[k],
                    r,
                ) && forall|j: int| i <= j < k ==> !lies_in(ls, #[trigger] spans[j], line),
            None => forall|k: int| i <= k < spans.len() ==> !lies_in(ls, #[trigger] spans[k], line),
        },
    decreases spans.len() - i,
{
    if i < spans.len() {
        let end = function_end(ls, spans[i].line as int);
        if lies_in(ls, spans[i], line) {
            let r = enclosing(ls, spans, line, i)->0;
            assert(tells_function(ls, spans[i], r));
        } else {
            lemma_enclosing(ls, spans, line, i + 1);
            match enclosing(ls, spans, line, i) {
                Some(r) => {
                    let k = choose|k: int|
                        i + 1 <= k < spans.len() && lies_in(ls, #[trigger] spans[k], line)
                            && tells_function(ls, spans[k], r) && forall|j: int|
                            i + 1 <= j < k ==> !lies_in(ls, #[trigger] spans[j], line);
                    assert forall|j: int| i <= j < k implies !lies_in(ls, #[trigger] spans[j], line) by {}
                },
                None => {},
            }
        }
    }
}

/// A line lies in the first of the functions that begin on it or before it and end on it or behind
/// it, and in none only where there is no such function.
pub proof fn law_enclosing_function(ls: Seq<Seq<char>>, spans: Seq<ItemText>, line: int)
    ensures
        match enclosing(ls, spans, line, 0) {
            Some(r) => exists|k: int|
                0 <= k < spans.len() && lies_in(ls, #[trigger] spans[k], line) && tells_function(
                    ls,
                    spans[k],
                    r,
                ) && forall|j: int| 0 <= j < k ==> !lies_in(ls, #[trigger] spans[j], line),
            None => forall|k: int| 0 <= k < spans.len() ==> !lies_in(ls, #[trigger] spans[k], line),
        },
{
    lemma_enclosing(ls, spans, line, 0);
}

/// A function ends on the line with the brace that closes the first block opened from its first
/// line, line `i` counted from zero, on; where none does, it is taken to end on its first line.
pub proof fn law_function_ends_with_its_block(ls: Seq<Seq<char>>, i: int)
    requires
        i >= 0,
    ensures
        ends_with_block(ls, i, function_end(ls, i + 1) - 1),
{
    law_closing_line(ls, i);
    let e = function_end(ls, i + 1) - 1;
    match closing_line(ls, i, 0, false, false) {
        Some(j) => {
            assert(e == j);
            let c = choose|c: int| #[trigger] closes_on(ls, i, j, c);
            assert(closes_on(ls, i, e, c));
            assert forall|j: int, c: int| #[trigger] closes_on(ls, i, j, c) implies e <= j by {}
        },
        None => {
            assert(e == i);
        },
    }
}

/// Whether line `e` holds the first brace that closes a block opened from line `i` on, or is line
/// `i` and there is no such brace.
pub open spec fn ends_with_block(ls: Seq<Seq<char>>, i: int, e: int) -> bool {
    ||| (exists|c: int| #[trigger] closes_on(ls, i, e, c)) && forall|j: int, c: int| #[trigger]
        closes_on(ls, i, j, c) ==> e <= j
    ||| e == i && forall|j: int, c: int| !#[trigger] closes_on(ls, i, j, c)
}

/// The text of a function is its lines.
pub proof fn law_function_body_is_its_lines(ls: Seq<Seq<char>>, start: int, end: int)
    requires
        without_char(ls, '\n'),
        1 <= start <= end <= ls.len(),
    ensures
        split(function_body(ls, start, end), '\n').len() == end - start + 1,
        forall|i: int|
            0 <= i <= end - start ==> #[trigger] split(function_body(ls, start, end), '\n')[i] == ls[start - 1
                + i],
{
    let part = ls.subrange(start - 1, end);
    assert forall|i: int, j: int| 0 <= i < part.len() && 0 <= j < part[i].len() implies #[trigger] part[i][j]
        != '\n' by {
        assert(part[i] == ls[start - 1 + i]);
    }
    reveal_strlit("\n");
    assert("\n"@ =~= seq!['\n']);
    lemma_split_joined(part, '\n');
}

proof fn lemma_location(locations: Seq<Option<Seq<Option<Seq<char>>>>>, j: int, end: int)
    requires
        0 <= j,
    ensures
        match next_location(locations, j, end) {
            Some(l) => exists|k: int|
                j <= k < end && k < locations.len() && #[trigger] locations[k] == Some(l) && forall|m: int|
                    j <= m < k ==> #[trigger] locations[m] is None,
            None => forall|k: int| j <= k < end && k < locations.len() ==> #[trigger] locations[k] is None,
        },
    decreases end - j,
{
    if j < end && j < locations.len() && locations[j] is None {
        lemma_location(locations, j + 1, end);
    }
}

/// An error has the code and the message of its first line, and the file, the line and the column
/// of the first location on the nine lines behind it; no file, and zero for both, where none of
/// them has a location.
pub proof fn law_error_is_read(
    head: Seq<Option<Seq<char>>>,
    locations: Seq<Option<Seq<Option<Seq<char>>>>>,
    i: int,
)
    requires
        0 <= i,
        head.len() == 3,
        head[1] is Some,
        head[2] is Some,
    ensures
        ({
            let e = error_at(head, locations, i);
            &&& e.error_code == "E"@ + head[1]->0
            &&& e.message == head[2]->0
            &&& forall|j: int|
                i < j <= i + 9 && j < locations.len() && (#[trigger] locations[j] matches Some(l) && l.len()
                    == 4 && l[1] is Some && l[2] is Some && l[3] is Some) && (forall|m: int|
                    i < m < j ==> #[trigger] locations[m] is None) ==> {
                    let l = locations[j]->0;
                    &&& e.file_path == l[1]->0
                    &&& (number(l[2]->0) matches Some(n) ==> n <= usize::MAX ==> e.line == n)
                    &&& (number(l[3]->0) matches Some(n) ==> n <= usize::MAX ==> e.column == n)
                }
            &&& (forall|j: int| i < j <= i + 9 && j < locations.len() ==> #[trigger] locations[j] is None)
                ==> e.file_path.len() == 0 && e.line == 0 && e.column == 0
        }),
{
    lemma_location(locations, i + 1, i + 10);
    let e = error_at(head, locations, i);
    assert forall|j: int|
        i < j <= i + 9 && j < locations.len() && (#[trigger] locations[j] matches Some(l) && l.len() == 4
            && l[1] is Some && l[2] is Some && l[3] is Some) && (forall|m: int|
            i < m < j ==> #[trigger] locations[m] is None) implies {
        let l = locations[j]->0;
        &&& e.file_path == l[1]->0
        &&& (number(l[2]->0) matches Some(n) ==> n <= usize::MAX ==> e.line == n)
        &&& (number(l[3]->0) matches Some(n) ==> n <= usize::MAX ==> e.column == n)
    } by {
        assert(next_location(locations, i + 1, i + 10) == locations[j]) by {
            match next_location(locations, i + 1, i + 10) {
                Some(l) => {
                    let k = choose|k: int|
                        i + 1 <= k < i + 10 && k < locations.len() && #[trigger] locations[k] == Some(l)
                            && forall|m: int| i + 1 <= m < k ==> #[trigger] locations[m] is None;
                    if k < j {
                        assert(locations[k] is None);
                    }
                    if j < k {
                        assert(locations[j] is None);
                    }
                },
                None => {
                    assert(locations[j] is None);
                },
            }
        }
    }
    if forall|j: int| i < j <= i + 9 && j < locations.len() ==> #[trigger] locations[j] is None {
        assert(next_location(locations, i + 1, i + 10) is None);
    }
}

/// There is an error for each line that begins one, in order, and no other.
pub proof fn law_every_error_is_read(
    heads: Seq<Option<Seq<Option<Seq<char>>>>>,
    locations: Seq<Option<Seq<Option<Seq<char>>>>>,
)
    ensures
        is_sieved(
            Seq::new(heads.len(), |i: int| i),
            errors_of(heads, locations),
            |i: int| 0 <= i < heads.len() && heads[i] is Some,
            |i: int| error_at(heads[i]->0, locations, i),
        ),
    decreases heads.len(),
{
    let n = heads.len();
    lemma_errors(heads, locations, n as int);
    assert(heads.take(n as int) =~= heads);
}

proof fn lemma_errors(
    heads: Seq<Option<Seq<Option<Seq<char>>>>>,
    locations: Seq<Option<Seq<Option<Seq<char>>>>>,
    n: int,
)
    requires
        0 <= n <= heads.len(),
    ensures
        is_sieved(
            Seq::new(n as nat, |i: int| i),
            errors_of(heads.take(n), locations),
            |i: int| 0 <= i < heads.len() && heads[i] is Some,
            |i: int| error_at(heads[i]->0, locations, i),
        ),
    decreases n,
{
    let keep = |i: int| 0 <= i < heads.len() && heads[i] is Some;
    let give = |i: int| error_at(heads[i]->0, locations, i);
    let at = Seq::new(n as nat, |i: int| i);
    let es = errors_of(heads.take(n), locations);
    if n == 0 {
        lemma_sieve_nothing(at, es, keep, give);
    } else {
        lemma_errors(heads, locations, n - 1);
        let d = heads.take(n).drop_last();
        assert(d =~= heads.take(n - 1));
        assert(at.drop_last() =~= Seq::new((n - 1) as nat, |i: int| i));
        let earlier = errors_of(d, locations);
        if keep(n - 1) {
            assert(es =~= earlier.push(give(n - 1)));
        } else {
            assert(es =~= earlier);
        }
        lemma_sieve_more(at, earlier, es, keep, give);
    }
}

/// The lines around a line are the two before it, it and the two behind it, as far as the text has
/// them: one row for each, which ends with the line, and an arrow before that line alone.
pub proof fn law_snippet_shows_the_line(ls: Seq<Seq<char>>, line: int)
    requires
        without_char(ls, '\n'),
        1 <= line <= ls.len(),
    ensures
        ({
            let rows = split(snippet(ls, line), '\n');
            let first = if line >= 3 {
                line - 2
            } else {
                1
            };
            let last = if line + 2 <= ls.len() {
                line + 2
            } else {
                ls.len() as int
            };
            &&& rows.len() == last - first + 1
            &&& forall|i: int|
                first <= i <= last ==> (" "@ + ls[i - 1]).is_suffix_of(#[trigger] rows[i - first])
            &&& forall|i: int|
                first <= i <= last ==> ((#[trigger] rows[i - first])[0] == '→' <==> i == line)
        }),
{
    let from = if line >= 3 {
        line - 3
    } else {
        0
    };
    let to = if line + 2 < ls.len() {
        line + 2
    } else {
        ls.len() as int
    };
    let rows = snippet_rows(ls, line, from, to);
    reveal_strlit("→ ");
    reveal_strlit("  ");
    reveal_strlit(" ");
    assert forall|i: int, j: int| 0 <= i < rows.len() && 0 <= j < rows[i].len() implies #[trigger] rows[i][j]
        != '\n' by {
        lemma_row(ls, line, from + i);
        if rows[i][j] == '\n' {
            assert(rows[i].contains('\n'));
        }
    }
    reveal_strlit("\n");
    assert("\n"@ =~= seq!['\n']);
    lemma_split_joined(rows, '\n');
    assert(split(snippet(ls, line), '\n') == rows);
    assert forall|i: int| from < i <= to implies (" "@ + ls[i - 1]).is_suffix_of(#[trigger] rows[i - from - 1]) by {
        lemma_row(ls, line, i - 1);
    }
    assert forall|i: int| from < i <= to implies ((#[trigger] rows[i - from - 1])[0] == '→' <==> i == line) by {
        lemma_row(ls, line, i - 1);
    }
}

proof fn lemma_row(ls: Seq<Seq<char>>, line: int, i: int)
    requires
        without_char(ls, '\n'),
        0 <= i < ls.len(),
    ensures
        ({
            let row = crate::wce::snippet_row(ls, line, i);
            &&& !row.contains('\n')
            &&& (" "@ + ls[i]).is_suffix_of(row)
            &&& row.len() > 0
            &&& (row[0] == '→' <==> i + 1 == line)
        }),
{
    let row = crate::wce::snippet_row(ls, line, i);
    reveal_strlit("→ ");
    reveal_strlit("  ");
    reveal_strlit(" ");
    let mark = if i + 1 == line {
        "→ "@
    } else {
        "  "@
    };
    let number = crate::text::padded_left(dec((i + 1) as nat), 4);
    crate::text::law_decimal_reads_back((i + 1) as nat);
    let d = dec((i + 1) as nat);
    assert forall|k: int| 0 <= k < number.len() implies number[k] != '\n' by {
        if d.len() < 4 && k >= 4 - d.len() {
            assert(number[k] == d[k - (4 - d.len())]);
        } else if d.len() >= 4 {
            assert(number[k] == d[k]);
        }
    }
    assert(row =~= mark + number + (" "@ + ls[i]));
    assert forall|k: int| 0 <= k < row.len() implies row[k] != '\n' by {
        let a = mark.len() as int;
        let b = a + number.len();
        if k < a {
            assert(row[k] == mark[k]);
        } else if k < b {
            assert(row[k] == number[k - a]);
        } else if k == b {
            assert(row[k] == ' ');
        } else {
            assert(row[k] == ls[i][k - b - 1]);
        }
    }
    assert(row[0] == mark[0]);
    assert((" "@ + ls[i]) =~= row.subrange(row.len() - (" "@ + ls[i]).len(), row.len() as int));
}

/// Whether `part` stands in `s` from position `at` on.
pub open spec fn stands_at(s: Seq<char>, part: Seq<char>, at: int) -> bool {
    0 <= at && at + part.len() <= s.len() && s.subrange(at, at + part.len()) == part
}

/// The report tells every error, one behind the other, each with its number.
pub proof fn law_every_error_is_told(es: Seq<ErrorText>, k: int)
    requires
        0 <= k < es.len(),
    ensures
        stands_at(
            errors_shown(es),
            error_shown((k + 1) as nat, es[k]),
            errors_shown(es.take(k)).len() as int,
        ),
    decreases es.len(),
{
    let d = es.drop_last();
    let part = error_shown((k + 1) as nat, es[k]);
    let at = errors_shown(es.take(k)).len() as int;
    if k == es.len() - 1 {
        assert(es.take(k) =~= d);
        assert(errors_shown(es).subrange(at, at + part.len()) =~= part);
    } else {
        law_every_error_is_told(d, k);
        assert(d.take(k) =~= es.take(k));
        assert(errors_shown(es).subrange(at, at + part.len()) =~= errors_shown(d).subrange(
            at,
            at + part.len(),
        ));
    }
}

proof fn lemma_stands(s: Seq<char>, a: Seq<char>, part: Seq<char>, b: Seq<char>)
    requires
        s == a + part + b,
    ensures
        occurs(s, part),
{
    assert(s.subrange(a.len() as int, (a.len() + part.len()) as int) =~= part);
    assert(occurs_at(s, part, a.len() as int));
}

/// What is told of an error holds its code, its place and its message.
pub proof fn law_error_tells_what_and_where(n: nat, e: ErrorText)
    ensures
        occurs(error_shown(n, e), e.error_code),
        occurs(error_shown(n, e), e.file_path + ":"@ + dec(e.line) + ":"@ + dec(e.column)),
        occurs(error_shown(n, e), e.message),
{
    let s = error_shown(n, e);
    let h = "\n━━━━━━━━━━━━━━━━━━━━━━━━━━━━━━━━━━━━━━━━\nError "@ + dec(n) + ": "@;
    let place = e.file_path + ":"@ + dec(e.line) + ":"@ + dec(e.column);
    let code = match e.code_snippet {
        Some(c) => "\nCode snippet:\n"@ + c + "\n"@,
        None => Seq::empty(),
    };
    let rest = "\n"@ + code + function_shown(e) + "\n"@;
    lemma_told(s, h, e.error_code, "\n  "@, place, "\n  "@, e.message, rest);
}

proof fn lemma_told(
    s: Seq<char>,
    a: Seq<char>,
    x: Seq<char>,
    b: Seq<char>,
    y: Seq<char>,
    c: Seq<char>,
    z: Seq<char>,
    d: Seq<char>,
)
    requires
        s =~= a + x + b + y + c + z + d,
    ensures
        occurs(s, x),
        occurs(s, y),
        occurs(s, z),
{
    assert(s =~= a + x + (b + y + c + z + d));
    lemma_stands(s, a, x, b + y + c + z + d);
    assert(s =~= (a + x + b) + y + (c + z + d));
    lemma_stands(s, a + x + b, y, c + z + d);
    lemma_stands(s, a + x + b + y + c, z, d);
}

/// What is told of an error holds the lines around it.
pub proof fn law_error_tells_its_lines(n: nat, e: ErrorText, lines: Seq<char>)
    requires
        e.code_snippet == Some(lines),
    ensures
        occurs(error_shown(n, e), lines),
{
    let s = error_shown(n, e);
    let h = "\n━━━━━━━━━━━━━━━━━━━━━━━━━━━━━━━━━━━━━━━━\nError "@ + dec(n) + ": "@ + e.error_code + "\n  "@
        + e.file_path + ":"@ + dec(e.line) + ":"@ + dec(e.column) + "\n  "@ + e.message + "\n"@;
    let a = "\nCode snippet:\n"@;
    let rest = "\n"@ + function_shown(e) + "\n"@;
    assert(s =~= h + a + lines + rest);
    lemma_stands(s, h + a, lines, rest);
}

/// What is told of an error ends with the function that it lies in: its name, its first and last
/// line and its text; or, where its file is there, with the word that none was found.
pub proof fn law_error_tells_its_function(n: nat, e: ErrorText)
    ensures
        (function_shown(e) + "\n"@).is_suffix_of(error_shown(n, e)),
        e.function matches Some(f) ==> occurs(function_shown(e), f.name) && occurs(
            function_shown(e),
            dec(f.start_line) + "-"@ + dec(f.end_line),
        ) && occurs(function_shown(e), f.body),
        e.function is None && e.file_exists ==> occurs(
            function_shown(e),
            "[FUNCTION WAS NOT FOUND]"@,
        ) && occurs(function_shown(e), dec(e.line)),
{
    let f = function_shown(e);
    let s = error_shown(n, e);
    assert(f + "\n"@ =~= s.subrange(s.len() - (f + "\n"@).len(), s.len() as int));
    match e.function {
        Some(g) => {
            let a = "\nFunction: "@ + crate::wce::modifier(g.is_pub, g.is_async);
            let range = dec(g.start_line) + "-"@ + dec(g.end_line);
            lemma_told(f, a, g.name, "\n  Lines: "@, range, "\n\n"@, g.body, "\n"@);
        },
        None => {
            if e.file_exists {
                reveal_strlit("\n⚠ [FUNCTION WAS NOT FOUND]\n  Error at line ");
                reveal_strlit("[FUNCTION WAS NOT FOUND]");
                let t = "\n⚠ [FUNCTION WAS NOT FOUND]\n  Error at line "@;
                let part = "[FUNCTION WAS NOT FOUND]"@;
                let none = Seq::<char>::empty();
                assert(t =~= t.take(3) + part + t.skip(27));
                let d = dec(e.line);
                let rest = ", but no enclosing function found\n"@;
                lemma_told(f, t.take(3), part, t.skip(27), d, rest, none, none);
            }
        },
    }
}

} // verus!
