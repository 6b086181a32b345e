//! What the operations on texts give, said of their results.

use vstd::prelude::*;
use crate::text::{
    count_of, find_from, first_at, index_of, interspersed, is_space, is_word, joined, lemma_index_of_bounds,
    lemma_joined_first, lemma_words_are_words, line_start, lines, newlines, occurs, occurs_at, replaced,
    split, strip_return, trimmed, trimmed_end, trimmed_start, until_any, without_char, without_end,
    without_start, word_len, words,
};

verus! {

/// A search from a position on finds the pattern at the first place where it stands, and nothing
/// only where it stands nowhere from there on.
pub proof fn law_found_first(s: Seq<char>, p: Seq<char>, i: int)
    requires
        0 <= i,
    ensures
        match find_from(s, p, i) {
            Some(a) => i <= a && a + p.len() <= s.len() && s.subrange(a, a + p.len()) == p
                && forall|j: int| i <= j < a ==> !#[trigger] occurs_at(s, p, j),
            None => forall|j: int| i <= j ==> !#[trigger] occurs_at(s, p, j),
        },
    decreases s.len() - i + 1,
{
    if i + p.len() <= s.len() && !occurs_at(s, p, i) {
        law_found_first(s, p, i + 1);
    }
}

/// Whether `pieces` are what stands in `s` before, between and behind the places of `from`,
/// searched from the left without overlap.
pub open spec fn is_cut(s: Seq<char>, from: Seq<char>, pieces: Seq<Seq<char>>) -> bool {
    &&& pieces.len() > 0
    &&& joined(pieces, from) == s
    &&& !occurs(pieces.last(), from)
    &&& forall|i: int|
        0 <= i < pieces.len() - 1 ==> first_at(
            (#[trigger] pieces[i]) + from,
            from,
            pieces[i].len() as int,
        )
}

proof fn lemma_longer_cut(s: Seq<char>, from: Seq<char>, rest: Seq<Seq<char>>)
    requires
        from.len() > 0,
        s.len() > 0,
        !from.is_prefix_of(s),
        is_cut(s.drop_first(), from, rest),
    ensures
        is_cut(s, from, seq![seq![s[0]] + rest[0]] + rest.drop_first()),
        forall|to: Seq<char>| #[trigger]
            joined(seq![seq![s[0]] + rest[0]] + rest.drop_first(), to) == seq![s[0]] + joined(rest, to),
{
    let first = seq![s[0]] + rest[0];
    let all = seq![first] + rest.drop_first();
    assert forall|to: Seq<char>| #[trigger] joined(all, to) == seq![s[0]] + joined(rest, to) by {
        if rest.len() > 1 {
            lemma_joined_first(all, to);
            lemma_joined_first(rest, to);
            assert(all.drop_first() =~= rest.drop_first());
            assert(joined(all, to) =~= seq![s[0]] + joined(rest, to));
        } else {
            assert(all =~= seq![first]);
        }
    }
    assert(joined(all, from) == seq![s[0]] + joined(rest, from));
    assert(joined(all, from) =~= s);
    assert(!occurs_at(s, from, 0)) by {
        if occurs_at(s, from, 0) {
            assert(s.subrange(0, from.len() as int) =~= from);
        }
    }
    if rest.len() == 1 {
        assert(all =~= seq![first]);
        assert(joined(rest, from) == rest[0]);
        assert(first =~= s);
        if occurs(s, from) {
            let i = choose|i: int| occurs_at(s, from, i);
            assert(rest[0].subrange(i - 1, i - 1 + from.len()) =~= s.subrange(i, i + from.len()));
            assert(occurs_at(rest[0], from, i - 1));
        }
    } else {
        assert(all.last() == rest.last());
        let t = first + from;
        lemma_joined_first(rest, from);
        assert(s =~= t + joined(rest.drop_first(), from));
        assert(first_at(rest[0] + from, from, rest[0].len() as int));
        assert(t.subrange(first.len() as int, (first.len() + from.len()) as int) =~= from);
        assert forall|j: int| j < first.len() implies !occurs_at(t, from, j) by {
            if occurs_at(t, from, j) {
                if j == 0 {
                    assert(s.subrange(0, from.len() as int) =~= t.subrange(0, from.len() as int));
                } else {
                    assert((rest[0] + from).subrange(j - 1, j - 1 + from.len()) =~= t.subrange(
                        j,
                        j + from.len(),
                    ));
                    assert(occurs_at(rest[0] + from, from, j - 1));
                }
            }
        }
        assert forall|i: int| 0 <= i < all.len() - 1 implies first_at(
            (#[trigger] all[i]) + from,
            from,
            all[i].len() as int,
        ) by {
            if i > 0 {
                assert(all[i] == rest[i]);
            }
        }
    }
}

proof fn lemma_next_cut(s: Seq<char>, from: Seq<char>, rest: Seq<Seq<char>>)
    requires
        from.len() > 0,
        from.is_prefix_of(s),
        is_cut(s.skip(from.len() as int), from, rest),
    ensures
        is_cut(s, from, seq![Seq::<char>::empty()] + rest),
        forall|to: Seq<char>| #[trigger]
            joined(seq![Seq::<char>::empty()] + rest, to) == to + joined(rest, to),
{
    let none = Seq::<char>::empty();
    let all = seq![none] + rest;
    assert forall|to: Seq<char>| #[trigger] joined(all, to) == to + joined(rest, to) by {
        lemma_joined_first(all, to);
        assert(all.drop_first() =~= rest);
        assert(none + to =~= to);
    }
    assert(joined(all, from) == from + joined(rest, from));
    assert(from + s.skip(from.len() as int) =~= s);
    assert(all.last() == rest.last());
    assert forall|i: int| 0 <= i < all.len() - 1 implies first_at(
        (#[trigger] all[i]) + from,
        from,
        all[i].len() as int,
    ) by {
        if i > 0 {
            assert(all[i] == rest[i - 1]);
        } else {
            assert(none + from =~= from);
            assert(from.subrange(0, from.len() as int) =~= from);
        }
    }
}

/// Replacing exchanges every place of a string, found from the left without overlap, and leaves
/// what stands between the places as it is; counting counts these places.
pub proof fn law_every_place_is_replaced(s: Seq<char>, from: Seq<char>, to: Seq<char>)
    requires
        from.len() > 0,
    ensures
        exists|pieces: Seq<Seq<char>>| #[trigger]
            is_cut(s, from, pieces) && replaced(s, from, to) == joined(pieces, to) && count_of(s, from)
                + 1 == pieces.len(),
    decreases s.len(),
{
    if s.len() == 0 {
        let pieces = seq![s];
        assert(!occurs(s, from));
        assert(is_cut(s, from, pieces));
        assert(replaced(s, from, to) =~= joined(pieces, to));
    } else if from.is_prefix_of(s) {
        let t = s.skip(from.len() as int);
        law_every_place_is_replaced(t, from, to);
        let rest = choose|rest: Seq<Seq<char>>| #[trigger]
            is_cut(t, from, rest) && replaced(t, from, to) == joined(rest, to) && count_of(t, from) + 1
                == rest.len();
        lemma_next_cut(s, from, rest);
        let all = seq![Seq::<char>::empty()] + rest;
        assert(joined(all, to) == to + joined(rest, to));
        assert(is_cut(s, from, all));
    } else {
        let t = s.drop_first();
        law_every_place_is_replaced(t, from, to);
        let rest = choose|rest: Seq<Seq<char>>| #[trigger]
            is_cut(t, from, rest) && replaced(t, from, to) == joined(rest, to) && count_of(t, from) + 1
                == rest.len();
        lemma_longer_cut(s, from, rest);
        let all = seq![seq![s[0]] + rest[0]] + rest.drop_first();
        assert(joined(all, to) == seq![s[0]] + joined(rest, to));
        assert(is_cut(s, from, all));
    }
}

/// The parts between separators hold none, and give the text again when they are joined.
pub proof fn law_split_is_undone(s: Seq<char>, c: char)
    ensures
        split(s, c).len() > 0,
        without_char(split(s, c), c),
        joined(split(s, c), seq![c]) == s,
    decreases s.len(),
{
    crate::text::lemma_split_parts(s, c);
    lemma_index_of_bounds(s, c);
    let k = index_of(s, c);
    if k < s.len() {
        let t = s.skip(k + 1);
        law_split_is_undone(t, c);
        lemma_joined_first(split(s, c), seq![c]);
        assert(split(s, c).drop_first() =~= split(t, c));
        assert(s =~= s.take(k) + seq![c] + t);
    }
}

/// Each line of a text is what stands between two of its line feeds, without the carriage return
/// before the line feed; what follows the last line feed is a line where it is not empty.
pub proof fn law_lines_are_the_parts(s: Seq<char>)
    ensures
        ({
            let parts = split(s, '\n');
            let n = parts.len() - 1;
            &&& lines(s).len() == if parts[n].len() > 0 {
                n + 1
            } else {
                n
            }
            &&& forall|i: int| 0 <= i < n ==> #[trigger] lines(s)[i] == strip_return(parts[i])
            &&& parts[n].len() > 0 ==> lines(s)[n] == parts[n]
        }),
    decreases s.len(),
{
    lemma_index_of_bounds(s, '\n');
    let k = index_of(s, '\n');
    if s.len() > 0 && k < s.len() {
        let t = s.skip(k + 1);
        law_lines_are_the_parts(t);
        let parts = split(s, '\n');
        let n = parts.len() - 1;
        assert(parts.drop_first() =~= split(t, '\n'));
        law_split_is_undone(t, '\n');
        assert(parts[n] == split(t, '\n')[n - 1]);
        assert forall|i: int| 0 <= i < n implies #[trigger] lines(s)[i] == strip_return(parts[i]) by {
            if i > 0 {
                assert(lines(s)[i] == lines(t)[i - 1]);
                assert(parts[i] == split(t, '\n')[i - 1]);
            }
        }
        if parts[n].len() > 0 {
            assert(lines(s)[n] == lines(t)[n - 1]);
        }
    }
}

/// A text without carriage returns is its lines, with a line feed between each two, and one behind
/// them where it ends in one.
pub proof fn law_lines_make_the_text(s: Seq<char>)
    requires
        !s.contains('\r'),
    ensures
        s == joined(lines(s), "\n"@) || (lines(s).len() > 0 && s == joined(lines(s), "\n"@) + "\n"@),
        without_char(lines(s), '\n'),
    decreases s.len(),
{
    reveal_strlit("\n");
    assert("\n"@ =~= seq!['\n']);
    crate::text::lemma_lines_without_feeds(s);
    lemma_index_of_bounds(s, '\n');
    let k = index_of(s, '\n');
    if s.len() == 0 {
        assert(joined(lines(s), "\n"@) =~= s);
    } else if k >= s.len() {
        assert(joined(lines(s), "\n"@) =~= s);
    } else {
        let t = s.skip(k + 1);
        let h = s.take(k);
        assert(!t.contains('\r')) by {
            if t.contains('\r') {
                let i = choose|i: int| 0 <= i < t.len() && t[i] == '\r';
                assert(s[i + k + 1] == '\r');
            }
        }
        if k > 0 {
            assert(s[k - 1] != '\r') by {
                if s[k - 1] == '\r' {
                    assert(s.contains('\r'));
                }
            }
        }
        assert(strip_return(h) == h);
        law_lines_make_the_text(t);
        assert(s =~= h + seq!['\n'] + t);
        assert(lines(s).drop_first() =~= lines(t));
        if t.len() == 0 {
            assert(lines(t) =~= Seq::empty());
            assert(lines(s) =~= seq![h]);
            assert(s =~= joined(lines(s), "\n"@) + "\n"@);
        } else {
            crate::text::lemma_lines_len(t);
            lemma_joined_first(lines(s), "\n"@);
            if t == joined(lines(t), "\n"@) {
                assert(s =~= joined(lines(s), "\n"@));
            } else {
                assert(s =~= joined(lines(s), "\n"@) + "\n"@);
            }
        }
    }
}

/// Whether all characters from `a` up to `b` are white space.
pub open spec fn all_space(s: Seq<char>, a: int, b: int) -> bool {
    forall|i: int| a <= i < b ==> is_space(#[trigger] s[i])
}

/// Where the white space at the start of a text ends.
pub proof fn lemma_start(s: Seq<char>)
    ensures
        ({
            let a = s.len() - trimmed_start(s).len();
            &&& 0 <= a <= s.len()
            &&& trimmed_start(s) == s.skip(a)
            &&& all_space(s, 0, a)
            &&& a < s.len() ==> !is_space(s[a])
        }),
    decreases s.len(),
{
    if s.len() > 0 && is_space(s[0]) {
        let t = s.drop_first();
        lemma_start(t);
        let a = s.len() - trimmed_start(s).len();
        assert(t.skip(a - 1) =~= s.skip(a));
        assert forall|i: int| 0 <= i < a implies is_space(#[trigger] s[i]) by {
            if i > 0 {
                assert(t[i - 1] == s[i]);
            }
        }
        if a < s.len() {
            assert(t[a - 1] == s[a]);
        }
    } else {
        assert(s.skip(0) =~= s);
    }
}

proof fn lemma_end(s: Seq<char>)
    ensures
        ({
            let b = trimmed_end(s).len() as int;
            &&& 0 <= b <= s.len()
            &&& trimmed_end(s) == s.take(b)
            &&& all_space(s, b, s.len() as int)
            &&& b > 0 ==> !is_space(s[b - 1])
        }),
    decreases s.len(),
{
    if s.len() > 0 && is_space(s.last()) {
        let t = s.drop_last();
        lemma_end(t);
        let b = trimmed_end(s).len() as int;
        assert(t.take(b) =~= s.take(b));
        assert forall|i: int| b <= i < s.len() implies is_space(#[trigger] s[i]) by {
            if i < t.len() {
                assert(t[i] == s[i]);
            }
        }
    } else {
        assert(s.take(s.len() as int) =~= s);
    }
}

/// Trimming takes away white space alone, and all of it at both ends.
pub proof fn law_trimmed(s: Seq<char>)
    ensures
        exists|a: int, b: int|
            0 <= a <= b <= s.len() && trimmed(s) == #[trigger] s.subrange(a, b) && all_space(s, 0, a)
                && all_space(s, b, s.len() as int) && (a < b ==> !is_space(s[a]) && !is_space(
                s[b - 1],
            )),
{
    lemma_start(s);
    let t = trimmed_start(s);
    lemma_end(t);
    let a = s.len() - t.len();
    let b = a + trimmed(s).len();
    assert(s.subrange(a, b) =~= trimmed(s));
    assert forall|i: int| b <= i < s.len() implies is_space(#[trigger] s[i]) by {
        assert(t[i - a] == s[i]);
    }
    if a < b {
        assert(t[b - a - 1] == s[b - 1]);
    }
}

/// Whether a word begins at position `i`.
pub open spec fn begins_word(s: Seq<char>, i: int) -> bool {
    0 <= i < s.len() && !is_space(s[i]) && (i == 0 || is_space(s[i - 1]))
}

/// How many words begin in `s`.
pub open spec fn word_starts(s: Seq<char>) -> nat
    decreases s.len(),
{
    if s.len() == 0 {
        0
    } else {
        word_starts(s.drop_last()) + if begins_word(s, s.len() - 1) {
            1nat
        } else {
            0nat
        }
    }
}

/// The characters of `s` that are no white space.
pub open spec fn inked(s: Seq<char>) -> Seq<char>
    decreases s.len(),
{
    if s.len() == 0 {
        Seq::empty()
    } else if is_space(s[0]) {
        inked(s.drop_first())
    } else {
        seq![s[0]] + inked(s.drop_first())
    }
}

proof fn lemma_inked_start(s: Seq<char>)
    ensures
        inked(trimmed_start(s)) == inked(s),
    decreases s.len(),
{
    if s.len() > 0 && is_space(s[0]) {
        lemma_inked_start(s.drop_first());
    }
}

proof fn lemma_inked_word(s: Seq<char>)
    ensures
        0 <= word_len(s) <= s.len(),
        inked(s) == s.take(word_len(s)) + inked(s.skip(word_len(s))),
        word_len(s) < s.len() ==> is_space(s[word_len(s)]),
    decreases s.len(),
{
    if s.len() == 0 || is_space(s[0]) {
        assert(s.skip(0) =~= s);
        assert(s.take(0) + inked(s) =~= inked(s));
    } else {
        let t = s.drop_first();
        lemma_inked_word(t);
        let n = word_len(t);
        assert(s.skip(n + 1) =~= t.skip(n));
        assert(s.take(n + 1) =~= seq![s[0]] + t.take(n));
        assert(inked(s) =~= s.take(n + 1) + inked(s.skip(n + 1)));
    }
}

proof fn lemma_word_starts_join(x: Seq<char>, y: Seq<char>)
    requires
        x.len() == 0 || y.len() == 0 || is_space(x.last()) || is_space(y[0]),
    ensures
        word_starts(x + y) == word_starts(x) + word_starts(y),
    decreases y.len(),
{
    if y.len() == 0 {
        assert(x + y =~= x);
    } else {
        let d = y.drop_last();
        lemma_word_starts_join(x, d);
        assert((x + y).drop_last() =~= x + d);
        assert(begins_word(x + y, (x + y).len() - 1) == begins_word(y, y.len() - 1)) by {
            if y.len() == 1 && x.len() > 0 {
                assert((x + y)[x.len() - 1] == x.last());
            }
        }
    }
}

proof fn lemma_word_starts_alike(s: Seq<char>)
    ensures
        all_space(s, 0, s.len() as int) ==> word_starts(s) == 0,
        is_word(s) ==> word_starts(s) == 1,
    decreases s.len(),
{
    if s.len() > 0 {
        let d = s.drop_last();
        lemma_word_starts_alike(d);
        if all_space(s, 0, s.len() as int) {
            assert forall|i: int| 0 <= i < d.len() implies is_space(#[trigger] d[i]) by {
                assert(s[i] == d[i]);
            }
        }
        if is_word(s) {
            assert forall|i: int| 0 <= i < d.len() implies !is_space(#[trigger] d[i]) by {
                assert(s[i] == d[i]);
            }
            if d.len() > 0 {
                assert(is_word(d));
            }
            assert(!is_space(s[s.len() - 1]));
        }
    }
}

/// A text has a word for each place where one begins.
pub proof fn law_words_are_counted(s: Seq<char>)
    ensures
        words(s).len() == word_starts(s),
    decreases s.len(),
{
    lemma_words_are_words(s);
    lemma_start(s);
    let t = trimmed_start(s);
    let a = s.len() - t.len();
    let blank = s.take(a);
    assert(s =~= blank + t);
    assert forall|i: int| 0 <= i < blank.len() implies is_space(#[trigger] blank[i]) by {
        assert(s[i] == blank[i]);
    }
    lemma_word_starts_alike(blank);
    lemma_word_starts_join(blank, t);
    lemma_inked_word(t);
    if t.len() > 0 {
        let n = word_len(t);
        assert(t[0] == s[a]);
        let w = t.take(n);
        let rest = t.skip(n);
        law_words_are_counted(rest);
        assert(words(s)[0] == w);
        assert(is_word(w));
        lemma_word_starts_alike(w);
        assert(t =~= w + rest);
        lemma_word_starts_join(w, rest);
    }
}

/// The words of a text hold all of its characters but the white space, in order; each holds some,
/// and none holds white space.
pub proof fn law_words_hold_all(s: Seq<char>)
    ensures
        joined(words(s), Seq::empty()) == inked(s),
        forall|i: int| 0 <= i < words(s).len() ==> is_word(#[trigger] words(s)[i]),
    decreases s.len(),
{
    let none = Seq::<char>::empty();
    lemma_words_are_words(s);
    let t = trimmed_start(s);
    lemma_start(s);
    lemma_inked_start(s);
    lemma_inked_word(t);
    if t.len() == 0 {
        assert(joined(words(s), none) =~= inked(s));
    } else {
        let n = word_len(t);
        let rest = t.skip(n);
        assert(n > 0) by {
            assert(!is_space(t[0])) by {
                assert(t[0] == s[s.len() - t.len()]);
            }
        }
        law_words_hold_all(rest);
        assert(words(s).drop_first() =~= words(rest));
        if words(rest).len() == 0 {
            assert(words(s) =~= seq![t.take(n)]);
            assert(joined(words(s), none) =~= inked(s));
        } else {
            lemma_joined_first(words(s), none);
            assert(joined(words(s), none) =~= inked(s));
        }
    }
}

/// A line begins behind the last line feed before a position, or at the start of the text.
pub proof fn law_line_start(s: Seq<char>, i: int)
    requires
        0 <= i <= s.len(),
    ensures
        0 <= line_start(s, i) <= i,
        line_start(s, i) == 0 || s[line_start(s, i) - 1] == '\n',
        forall|j: int| line_start(s, i) <= j < i ==> #[trigger] s[j] != '\n',
    decreases i,
{
    if i > 0 && s[i - 1] != '\n' {
        law_line_start(s, i - 1);
    }
}

/// A line feed counts for one, any other character for none, and what two texts hold counts
/// together.
pub proof fn law_newlines(a: Seq<char>, b: Seq<char>, c: char)
    ensures
        newlines(a + b) == newlines(a) + newlines(b),
        newlines(seq![c]) == if c == '\n' {
            1nat
        } else {
            0nat
        },
{
    crate::text::lemma_newlines_join(a, b);
    let none = Seq::<char>::empty();
    assert(newlines(none) == 0);
    assert(seq![c].drop_last() =~= none);
}

/// What stands before the first of some characters holds none of them, and one follows it unless
/// it is the whole text.
pub proof fn law_until_any(s: Seq<char>, stops: Seq<char>)
    ensures
        ({
            let n = until_any(s, stops).len() as int;
            &&& n <= s.len()
            &&& until_any(s, stops) == s.take(n)
            &&& forall|i: int| 0 <= i < n ==> !stops.contains(#[trigger] s[i])
            &&& n < s.len() ==> stops.contains(s[n])
        }),
    decreases s.len(),
{
    if s.len() > 0 && !stops.contains(s[0]) {
        let t = s.drop_first();
        law_until_any(t, stops);
        let n = until_any(s, stops).len() as int;
        assert(until_any(s, stops) =~= s.take(n));
        assert forall|i: int| 0 <= i < n implies !stops.contains(#[trigger] s[i]) by {
            if i > 0 {
                assert(t[i - 1] == s[i]);
            }
        }
    } else {
        assert(until_any(s, stops) =~= s.take(0));
    }
}

/// Without the characters `c` that end or begin it, a text has lost nothing else, and no longer
/// ends or begins with one.
pub proof fn law_without_ends(s: Seq<char>, c: char)
    ensures
        without_end(s, c).is_prefix_of(s),
        without_end(s, c).len() > 0 ==> without_end(s, c).last() != c,
        forall|i: int| without_end(s, c).len() <= i < s.len() ==> #[trigger] s[i] == c,
        without_start(s, c).is_suffix_of(s),
        without_start(s, c).len() > 0 ==> without_start(s, c)[0] != c,
        forall|i: int| 0 <= i < s.len() - without_start(s, c).len() ==> #[trigger] s[i] == c,
    decreases s.len(),
{
    if s.len() > 0 {
        let d = s.drop_last();
        let f = s.drop_first();
        law_without_ends(d, c);
        law_without_ends(f, c);
        if s.last() == c {
            assert forall|i: int| without_end(s, c).len() <= i < s.len() implies #[trigger] s[i] == c by {
                if i < d.len() {
                    assert(d[i] == s[i]);
                }
            }
        }
        if s[0] == c {
            assert forall|i: int| 0 <= i < s.len() - without_start(s, c).len() implies #[trigger] s[i]
                == c by {
                if i > 0 {
                    assert(f[i - 1] == s[i]);
                }
            }
        }
    }
}

/// Put before every character and at the end, a text comes once more often than there are
/// characters, and nothing is lost.
pub proof fn law_interspersed(s: Seq<char>, to: Seq<char>)
    ensures
        interspersed(s, to).len() == s.len() + (s.len() + 1) * to.len(),
        to.len() == 0 ==> interspersed(s, to) == s,
    decreases s.len(),
{
    if s.len() > 0 {
        law_interspersed(s.drop_last(), to);
        let n = s.len();
        assert((n + 1) * to.len() == n * to.len() + to.len()) by (nonlinear_arith);
        if to.len() == 0 {
            assert(interspersed(s, to) =~= s);
        }
    } else {
        assert((0 + 1) * to.len() == to.len()) by (nonlinear_arith);
        if to.len() == 0 {
            assert(interspersed(s, to) =~= s);
        }
    }
}

} // verus!
