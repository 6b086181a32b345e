//! What replacing a string does to a file, said of its lines.

use vstd::prelude::*;
use crate::text::{
    interspersed, joined, lemma_joined_first, lemma_split_joined, occurs, replaced, split, without_char,
};
use crate::unicode::lowercase;
use crate::wcs::{
    case_marks, case_replaced, changed_lines, law_nothing_to_replace, line_hits, marked_replaced, new_line,
    new_text, total_hits,
};

verus! {

proof fn lemma_replaced_chars(s: Seq<char>, from: Seq<char>, to: Seq<char>, c: char)
    requires
        !s.contains(c),
        !to.contains(c),
    ensures
        !replaced(s, from, to).contains(c),
    decreases s.len(),
{
    if from.len() == 0 {
        lemma_interspersed_chars(s, to, c);
    } else if s.len() > 0 {
        if from.is_prefix_of(s) {
            let t = s.skip(from.len() as int);
            assert forall|i: int| 0 <= i < t.len() implies t[i] != c by {
                assert(s[i + from.len()] == t[i]);
            }
            lemma_replaced_chars(t, from, to, c);
            lemma_joined_chars(to, replaced(t, from, to), c);
        } else {
            let t = s.drop_first();
            assert forall|i: int| 0 <= i < t.len() implies t[i] != c by {
                assert(s[i + 1] == t[i]);
            }
            lemma_replaced_chars(t, from, to, c);
            assert(s[0] != c);
            assert(!seq![s[0]].contains(c));
            lemma_joined_chars(seq![s[0]], replaced(t, from, to), c);
        }
    }
}

proof fn lemma_joined_chars(a: Seq<char>, b: Seq<char>, c: char)
    requires
        !a.contains(c),
        !b.contains(c),
    ensures
        !(a + b).contains(c),
{
    assert forall|i: int| 0 <= i < (a + b).len() implies (a + b)[i] != c by {
        if i < a.len() {
            assert(a[i] == (a + b)[i]);
        } else {
            assert(b[i - a.len()] == (a + b)[i]);
        }
    }
}

proof fn lemma_interspersed_chars(s: Seq<char>, to: Seq<char>, c: char)
    requires
        !s.contains(c),
        !to.contains(c),
    ensures
        !interspersed(s, to).contains(c),
    decreases s.len(),
{
    if s.len() > 0 {
        let d = s.drop_last();
        assert forall|i: int| 0 <= i < d.len() implies d[i] != c by {
            assert(s[i] == d[i]);
        }
        lemma_interspersed_chars(d, to, c);
        assert(s.last() != c) by {
            assert(s[s.len() - 1] != c);
        }
        assert(!seq![s.last()].contains(c));
        lemma_joined_chars(interspersed(d, to), seq![s.last()], c);
        lemma_joined_chars(interspersed(d, to) + seq![s.last()], to, c);
    }
}

proof fn lemma_marked_chars(s: Seq<char>, marks: Seq<bool>, width: int, to: Seq<char>, i: int, c: char)
    requires
        0 <= i,
        !s.contains(c),
        !to.contains(c),
    ensures
        !marked_replaced(s, marks, width, to, i).contains(c),
    decreases s.len() - i,
{
    if i < s.len() {
        if marks[i] && 0 < width <= s.len() - i {
            lemma_marked_chars(s, marks, width, to, i + width, c);
            lemma_joined_chars(to, marked_replaced(s, marks, width, to, i + width), c);
        } else {
            lemma_marked_chars(s, marks, width, to, i + 1, c);
            assert(s[i] != c);
            assert(!seq![s[i]].contains(c));
            lemma_joined_chars(seq![s[i]], marked_replaced(s, marks, width, to, i + 1), c);
        }
    }
}

/// Whether position `j` lies in one of the places.
#[verifier::opaque]
pub open spec fn is_covered(starts: Seq<int>, width: int, j: int) -> bool {
    exists|k: int| 0 <= k < starts.len() && #[trigger] starts[k] <= j < starts[k] + width
}

proof fn lemma_covered_later(rest: Seq<int>, first: int, width: int, j: int)
    requires
        is_covered(rest, width, j) || first <= j < first + width,
    ensures
        is_covered(seq![first] + rest, width, j),
{
    reveal(is_covered);
    let all = seq![first] + rest;
    if first <= j < first + width {
        assert(all[0] <= j < all[0] + width);
    } else {
        let k = choose|k: int| 0 <= k < rest.len() && #[trigger] rest[k] <= j < rest[k] + width;
        assert(all[k + 1] == rest[k]);
    }
}

/// Whether `starts` are the places of a replacement without overlap from position `lo` on: each is
/// marked and has `width` characters behind it, they do not overlap, and a marked place that has
/// as many and is not one of them overlaps one of them.
pub open spec fn are_places(marks: Seq<bool>, width: int, lo: int, starts: Seq<int>) -> bool {
    &&& forall|k: int|
        0 <= k < starts.len() ==> lo <= #[trigger] starts[k] && starts[k] + width <= marks.len()
            && marks[starts[k]]
    &&& forall|k: int, l: int| 0 <= k < l < starts.len() ==> #[trigger] starts[k] + width <= #[trigger] starts[l]
    &&& forall|j: int|
        lo <= j && j + width <= marks.len() && #[trigger] marks[j] ==> is_covered(starts, width, j)
}

/// What stands from position `lo` on before, between and behind the places.
pub open spec fn gaps(s: Seq<char>, width: int, lo: int, starts: Seq<int>) -> Seq<Seq<char>> {
    Seq::new(
        starts.len() + 1,
        |k: int|
            s.subrange(
                if k == 0 {
                    lo
                } else {
                    starts[k - 1] + width
                },
                if k < starts.len() {
                    starts[k]
                } else {
                    s.len() as int
                },
            ),
    )
}

proof fn lemma_marked(s: Seq<char>, marks: Seq<bool>, width: int, to: Seq<char>, i: int)
    requires
        0 <= i <= s.len(),
        marks.len() == s.len(),
        width > 0,
    ensures
        exists|starts: Seq<int>| #[trigger]
            are_places(marks, width, i, starts) && marked_replaced(s, marks, width, to, i) == joined(
                gaps(s, width, i, starts),
                to,
            ),
    decreases s.len() - i,
{
    if i >= s.len() {
        let starts = Seq::<int>::empty();
        assert(s.subrange(i, s.len() as int) =~= Seq::<char>::empty());
        assert(gaps(s, width, i, starts) =~= seq![Seq::<char>::empty()]);
        assert(are_places(marks, width, i, starts));
    } else if marks[i] && 0 < width <= s.len() - i {
        lemma_marked(s, marks, width, to, i + width);
        let rest = choose|rest: Seq<int>| #[trigger]
            are_places(marks, width, i + width, rest) && marked_replaced(s, marks, width, to, i + width)
                == joined(gaps(s, width, i + width, rest), to);
        let starts = seq![i] + rest;
        let all = gaps(s, width, i, starts);
        assert(all.drop_first() =~= gaps(s, width, i + width, rest)) by {
            assert forall|k: int| 0 <= k <= rest.len() implies all.drop_first()[k] == #[trigger] gaps(
                s,
                width,
                i + width,
                rest,
            )[k] by {
                assert(starts[k + 1 - 1] == if k == 0 { i } else { rest[k - 1] });
                if k < rest.len() {
                    assert(starts[k + 1] == rest[k]);
                }
            }
        }
        lemma_joined_first(all, to);
        assert(all[0] =~= Seq::<char>::empty());
        assert(joined(all, to) =~= to + joined(gaps(s, width, i + width, rest), to));
        assert(are_places(marks, width, i, starts)) by {
            assert forall|k: int| 0 <= k < starts.len() implies i <= #[trigger] starts[k] && starts[k]
                + width <= marks.len() && marks[starts[k]] by {
                if k > 0 {
                    assert(starts[k] == rest[k - 1]);
                }
            }
            assert forall|k: int, l: int| 0 <= k < l < starts.len() implies #[trigger] starts[k] + width
                <= #[trigger] starts[l] by {
                assert(starts[l] == rest[l - 1]);
                if k > 0 {
                    assert(starts[k] == rest[k - 1]);
                }
            }
            assert forall|j: int| i <= j && j + width <= marks.len() && #[trigger] marks[j] implies is_covered(
                starts,
                width,
                j,
            ) by {
                lemma_covered_later(rest, i, width, j);
            }
        }
    } else {
        lemma_marked(s, marks, width, to, i + 1);
        let starts = choose|rest: Seq<int>| #[trigger]
            are_places(marks, width, i + 1, rest) && marked_replaced(s, marks, width, to, i + 1)
                == joined(gaps(s, width, i + 1, rest), to);
        let all = gaps(s, width, i, starts);
        let rest = gaps(s, width, i + 1, starts);
        if starts.len() > 0 {
            assert(starts[0] >= i + 1);
        }
        assert(all[0] =~= seq![s[i]] + rest[0]);
        if starts.len() > 0 {
            lemma_joined_first(all, to);
            lemma_joined_first(rest, to);
            assert(all.drop_first() =~= rest.drop_first());
            assert(joined(all, to) =~= seq![s[i]] + joined(rest, to));
        } else {
            assert(all =~= seq![all[0]]);
            assert(rest =~= seq![rest[0]]);
        }
        assert(are_places(marks, width, i, starts)) by {
            assert forall|k: int| 0 <= k < starts.len() implies i <= #[trigger] starts[k] by {
                assert(starts[k] >= i + 1);
            }
        }
    }
}

/// Replacing without regard to case exchanges every place where the string stands, case aside,
/// from the left without overlap, and leaves what stands between the places as it is.
pub proof fn law_every_case_is_replaced(s: Seq<char>, from: Seq<char>, to: Seq<char>)
    requires
        from.len() > 0,
    ensures
        exists|starts: Seq<int>|
            case_replaced(s, from, to) == joined(#[trigger] gaps(s, from.len() as int, 0, starts), to) && (
            forall|k: int|
                0 <= k < starts.len() ==> 0 <= #[trigger] starts[k] && starts[k] + from.len() <= s.len()
                    && lowercase(s.subrange(starts[k], starts[k] + from.len())) == lowercase(from)) && (
            forall|k: int, l: int|
                0 <= k < l < starts.len() ==> #[trigger] starts[k] + from.len() <= #[trigger] starts[l])
                && (forall|j: int|
                0 <= j && j + from.len() <= s.len() && lowercase(
                    #[trigger] s.subrange(j, j + from.len()),
                ) == lowercase(from) ==> is_covered(starts, from.len() as int, j)),
{
    let n = from.len() as int;
    let marks = case_marks(s, from);
    lemma_marked(s, marks, n, to, 0);
    let starts = choose|starts: Seq<int>| #[trigger]
        are_places(marks, n, 0, starts) && marked_replaced(s, marks, n, to, 0) == joined(
            gaps(s, n, 0, starts),
            to,
        );
    assert(case_replaced(s, from, to) == joined(gaps(s, n, 0, starts), to));
    assert forall|k: int| 0 <= k < starts.len() implies 0 <= #[trigger] starts[k] && starts[k] + from.len()
        <= s.len() && lowercase(s.subrange(starts[k], starts[k] + from.len())) == lowercase(from) by {
        assert(marks[starts[k]]);
    }
    assert forall|j: int|
        0 <= j && j + from.len() <= s.len() && lowercase(#[trigger] s.subrange(j, j + from.len()))
            == lowercase(from) implies is_covered(starts, n, j) by {
        assert(marks[j]);
    }
}

proof fn lemma_no_place(s: Seq<char>, marks: Seq<bool>, width: int, to: Seq<char>, i: int)
    requires
        0 <= i <= s.len(),
        marks.len() == s.len(),
        forall|j: int| 0 <= j < s.len() ==> !marks[j],
    ensures
        marked_replaced(s, marks, width, to, i) == s.skip(i),
    decreases s.len() - i,
{
    if i < s.len() {
        lemma_no_place(s, marks, width, to, i + 1);
        assert(seq![s[i]] + s.skip(i + 1) =~= s.skip(i));
    } else {
        assert(s.skip(i) =~= Seq::<char>::empty());
    }
}

/// The lines of a file after replacement, one after the other.
pub open spec fn new_lines(
    ls: Seq<Seq<char>>,
    old_string: Seq<char>,
    new_string: Seq<char>,
    case_sensitive: bool,
) -> Seq<Seq<char>> {
    ls.map_values(|l: Seq<char>| new_line(l, old_string, new_string, case_sensitive))
}

proof fn lemma_written(
    ls: Seq<Seq<char>>,
    old_string: Seq<char>,
    new_string: Seq<char>,
    case_sensitive: bool,
)
    ensures
        new_text(ls, old_string, new_string, case_sensitive) == joined(
            new_lines(ls, old_string, new_string, case_sensitive).push(Seq::empty()),
            "\n"@,
        ),
    decreases ls.len(),
{
    let none = Seq::<char>::empty();
    let all = new_lines(ls, old_string, new_string, case_sensitive);
    if ls.len() == 0 {
        assert(all.push(none) =~= seq![none]);
    } else {
        let d = ls.drop_last();
        lemma_written(d, old_string, new_string, case_sensitive);
        let earlier = new_lines(d, old_string, new_string, case_sensitive);
        assert(all.push(none).drop_last() =~= all);
        assert(earlier =~= all.drop_last());
        let last = new_line(ls.last(), old_string, new_string, case_sensitive);
        assert(all.last() == last);
        if earlier.len() == 0 {
            assert(all =~= seq![last]);
            assert(earlier.push(none) =~= seq![none]);
            assert(joined(all, "\n"@) == last);
            assert(joined(all.push(none), "\n"@) == joined(all, "\n"@) + "\n"@ + none);
            assert(joined(all.push(none), "\n"@) =~= none + last + "\n"@);
        } else {
            assert(earlier.push(none).drop_last() =~= earlier);
            assert(joined(earlier.push(none), "\n"@) =~= joined(earlier, "\n"@) + "\n"@);
            assert(joined(all, "\n"@) == joined(earlier, "\n"@) + "\n"@ + last);
            assert(joined(all.push(none), "\n"@) =~= joined(all, "\n"@) + "\n"@);
            assert(new_text(ls, old_string, new_string, case_sensitive) =~= joined(earlier, "\n"@)
                + "\n"@ + last + "\n"@);
        }
    }
}

/// What is written back has a line for each line of the file, in order, each with a line feed
/// behind it: the line after replacement, and the line as it was where the string does not stand
/// on it.
pub proof fn law_every_line_is_written(
    ls: Seq<Seq<char>>,
    old_string: Seq<char>,
    new_string: Seq<char>,
    case_sensitive: bool,
)
    requires
        without_char(ls, '\n'),
        !new_string.contains('\n'),
        old_string.len() > 0,
    ensures
        ({
            let written = split(new_text(ls, old_string, new_string, case_sensitive), '\n');
            &&& written.len() == ls.len() + 1
            &&& written.last().len() == 0
            &&& forall|i: int|
                0 <= i < ls.len() ==> #[trigger] written[i] == if case_sensitive {
                    replaced(ls[i], old_string, new_string)
                } else {
                    case_replaced(ls[i], old_string, new_string)
                }
            &&& forall|i: int|
                0 <= i < ls.len() && case_sensitive && !occurs(ls[i], old_string)
                    ==> #[trigger] written[i] == ls[i]
            &&& forall|i: int|
                0 <= i < ls.len() && !case_sensitive && (forall|j: int|
                    0 <= j && j + old_string.len() <= ls[i].len() ==> lowercase(
                        #[trigger] ls[i].subrange(j, j + old_string.len()),
                    ) != lowercase(old_string)) ==> #[trigger] written[i] == ls[i]
        }),
{
    let none = Seq::<char>::empty();
    let all = new_lines(ls, old_string, new_string, case_sensitive);
    lemma_written(ls, old_string, new_string, case_sensitive);
    let rows = all.push(none);
    assert forall|i: int, j: int| 0 <= i < rows.len() && 0 <= j < rows[i].len() implies #[trigger] rows[i][j]
        != '\n' by {
        if i < ls.len() {
            assert forall|k: int| 0 <= k < ls[i].len() implies ls[i][k] != '\n' by {}
            assert(!ls[i].contains('\n'));
            if case_sensitive {
                lemma_replaced_chars(ls[i], old_string, new_string, '\n');
            } else {
                lemma_marked_chars(
                    ls[i],
                    case_marks(ls[i], old_string),
                    old_string.len() as int,
                    new_string,
                    0,
                    '\n',
                );
            }
            assert(rows[i] == new_line(ls[i], old_string, new_string, case_sensitive));
        }
    }
    reveal_strlit("\n");
    assert("\n"@ =~= seq!['\n']);
    lemma_split_joined(rows, '\n');
    let written = split(new_text(ls, old_string, new_string, case_sensitive), '\n');
    assert(written == rows);
    assert forall|i: int| 0 <= i < ls.len() && case_sensitive && !occurs(ls[i], old_string) implies #[trigger]
        written[i] == ls[i] by {
        law_nothing_to_replace(ls[i], old_string, new_string);
    }
    assert forall|i: int|
        0 <= i < ls.len() && !case_sensitive && (forall|j: int|
            0 <= j && j + old_string.len() <= ls[i].len() ==> lowercase(
                #[trigger] ls[i].subrange(j, j + old_string.len()),
            ) != lowercase(old_string)) implies #[trigger] written[i] == ls[i] by {
        let marks = case_marks(ls[i], old_string);
        assert forall|j: int| 0 <= j < ls[i].len() implies !marks[j] by {
            if j + old_string.len() <= ls[i].len() {
                let part = ls[i].subrange(j, j + old_string.len());
                assert(lowercase(part) != lowercase(old_string));
            }
        }
        lemma_no_place(ls[i], marks, old_string.len() as int, new_string, 0);
        assert(ls[i].skip(0) =~= ls[i]);
    }
}

/// The lines that are told to change are those that do, each once and in order, with the number
/// that it has in the file, what it was and what it becomes.
pub proof fn law_changed_lines_are_told(
    ls: Seq<Seq<char>>,
    old_string: Seq<char>,
    new_string: Seq<char>,
    case_sensitive: bool,
)
    ensures
        ({
            let told = changed_lines(ls, old_string, new_string, case_sensitive);
            &&& forall|k: int|
                0 <= k < told.len() ==> {
                    let d = #[trigger] told[k];
                    &&& 1 <= d.line_num <= ls.len()
                    &&& d.old_line == ls[d.line_num - 1]
                    &&& d.new_line == new_line(d.old_line, old_string, new_string, case_sensitive)
                    &&& d.new_line != d.old_line
                    &&& d.occurrences == line_hits(d.old_line, old_string, new_string, case_sensitive)
                }
            &&& forall|k: int, l: int|
                0 <= k < l < told.len() ==> (#[trigger] told[k]).line_num < (#[trigger] told[l]).line_num
            &&& forall|i: int|
                0 <= i < ls.len() && new_line(#[trigger] ls[i], old_string, new_string, case_sensitive)
                    != ls[i] ==> exists|k: int| 0 <= k < told.len() && (#[trigger] told[k]).line_num == i + 1
        }),
    decreases ls.len(),
{
    if ls.len() > 0 {
        let d = ls.drop_last();
        law_changed_lines_are_told(d, old_string, new_string, case_sensitive);
        let earlier = changed_lines(d, old_string, new_string, case_sensitive);
        let told = changed_lines(ls, old_string, new_string, case_sensitive);
        assert forall|k: int| 0 <= k < told.len() implies {
            let d = #[trigger] told[k];
            &&& 1 <= d.line_num <= ls.len()
            &&& d.old_line == ls[d.line_num - 1]
            &&& d.new_line == new_line(d.old_line, old_string, new_string, case_sensitive)
            &&& d.new_line != d.old_line
            &&& d.occurrences == line_hits(d.old_line, old_string, new_string, case_sensitive)
        } by {
            if k < earlier.len() {
                assert(told[k] == earlier[k]);
            }
        }
        assert forall|k: int, l: int| 0 <= k < l < told.len() implies (#[trigger] told[k]).line_num < (
        #[trigger] told[l]).line_num by {
            assert(told[k] == earlier[k]);
            if l < earlier.len() {
                assert(told[l] == earlier[l]);
            }
        }
        assert forall|i: int|
            0 <= i < ls.len() && new_line(#[trigger] ls[i], old_string, new_string, case_sensitive)
                != ls[i] implies exists|k: int| 0 <= k < told.len() && (#[trigger] told[k]).line_num == i
            + 1 by {
            if i < d.len() {
                assert(d[i] == ls[i]);
                let k = choose|k: int| 0 <= k < earlier.len() && (#[trigger] earlier[k]).line_num == i + 1;
                assert(told[k] == earlier[k]);
            } else {
                assert(told[earlier.len() as int].line_num == i + 1);
            }
        }
    }
}

/// The replacements that are counted are those of two parts of a file together; where no line
/// changes, none is counted.
pub proof fn law_hits_add_up(
    a: Seq<Seq<char>>,
    b: Seq<Seq<char>>,
    old_string: Seq<char>,
    new_string: Seq<char>,
    case_sensitive: bool,
)
    ensures
        total_hits(a + b, old_string, new_string, case_sensitive) == total_hits(
            a,
            old_string,
            new_string,
            case_sensitive,
        ) + total_hits(b, old_string, new_string, case_sensitive),
        (forall|i: int|
            0 <= i < b.len() ==> new_line(#[trigger] b[i], old_string, new_string, case_sensitive) == b[i])
            ==> total_hits(b, old_string, new_string, case_sensitive) == 0,
        b.len() == 1 ==> total_hits(b, old_string, new_string, case_sensitive) == line_hits(
            b[0],
            old_string,
            new_string,
            case_sensitive,
        ),
    decreases b.len(),
{
    if b.len() == 0 {
        assert(a + b =~= a);
    } else {
        let d = b.drop_last();
        law_hits_add_up(a, d, old_string, new_string, case_sensitive);
        assert((a + b).drop_last() =~= a + d);
        assert forall|i: int| 0 <= i < d.len() implies d[i] == b[i] by {}
        assert(b.last() == b[b.len() - 1]);
    }
}

} // verus!
