//! What is counted and looked up, said of all that there is to count or to find.

use vstd::prelude::*;
use crate::common::word_count;
use crate::diff::{side, ChangeTag};
use crate::path::{name_of, path_extension};
use crate::sieve::{is_sieved, lemma_sieve_more, lemma_sieve_nothing};
use crate::text::{is_space, trimmed};
use crate::unicode::lowercase;
use crate::wce::{found_count, ErrorText};
use crate::wcf::{MatchText, ParsedText};
use crate::wcf_functions::{first_impl_type, has_method, path_label};
use crate::wcf_heads::{blank_end, from_extern, last_before};
use crate::wcf_session::{column, column_width, first_telling_line, is_idle_line, places_like, stands_at, PlaceText};
use crate::wcgv::SymbolNode;
use crate::wcgv_edges::{closer, closest, encloses, is_closest};
use crate::wcl::{fits_skip, is_skipped_file, looks_binary};
use crate::wcp::{owned_changes, owner_at, side_lines, tagged};
use crate::wff::{before_type_mark, first_plain};

verus! {

/// Words are counted on both sides of white space: nothing has none, a run without white space is
/// one, and texts with white space between them have the words of both.
pub proof fn law_words_are_counted(a: Seq<char>, gap: Seq<char>, b: Seq<char>)
    requires
        gap.len() > 0,
        forall|i: int| 0 <= i < gap.len() ==> is_space(#[trigger] gap[i]),
    ensures
        word_count(Seq::empty()) == 0,
        word_count(a + gap) == word_count(a),
        word_count(a + gap + b) == word_count(a) + word_count(b),
        a.len() > 0 && (forall|i: int| 0 <= i < a.len() ==> !is_space(#[trigger] a[i])) ==> word_count(a) == 1,
{
    lemma_gap_has_no_words(a, gap);
    lemma_words_add_up(a + gap, b);
    if a.len() > 0 && (forall|i: int| 0 <= i < a.len() ==> !is_space(#[trigger] a[i])) {
        lemma_one_word(a);
    }
}

proof fn lemma_gap_has_no_words(a: Seq<char>, gap: Seq<char>)
    requires
        forall|i: int| 0 <= i < gap.len() ==> is_space(#[trigger] gap[i]),
    ensures
        word_count(a + gap) == word_count(a),
    decreases gap.len(),
{
    if gap.len() == 0 {
        assert(a + gap =~= a);
    } else {
        let d = gap.drop_last();
        assert((a + gap).drop_last() =~= a + d);
        assert((a + gap).last() == gap[gap.len() - 1]);
        assert forall|i: int| 0 <= i < d.len() implies is_space(#[trigger] d[i]) by {
            assert(d[i] == gap[i]);
        }
        lemma_gap_has_no_words(a, d);
    }
}

proof fn lemma_words_add_up(a: Seq<char>, b: Seq<char>)
    requires
        a.len() > 0,
        is_space(a.last()),
    ensures
        word_count(a + b) == word_count(a) + word_count(b),
    decreases b.len(),
{
    if b.len() == 0 {
        assert(a + b =~= a);
    } else {
        let d = b.drop_last();
        let s = a + b;
        assert(s.drop_last() =~= a + d);
        assert(s.last() == b.last());
        lemma_words_add_up(a, d);
        if b.len() == 1 {
            assert(s[s.len() - 2] == a.last());
        } else {
            assert(s[s.len() - 2] == b[b.len() - 2]);
        }
    }
}

proof fn lemma_one_word(a: Seq<char>)
    requires
        a.len() > 0,
        forall|i: int| 0 <= i < a.len() ==> !is_space(#[trigger] a[i]),
    ensures
        word_count(a) == 1,
    decreases a.len(),
{
    let d = a.drop_last();
    assert(!is_space(a[a.len() - 1]));
    if a.len() == 1 {
        assert(word_count(d) == 0);
    } else {
        assert(!is_space(a[a.len() - 2]));
        assert forall|i: int| 0 <= i < d.len() implies !is_space(#[trigger] d[i]) by {
            assert(d[i] == a[i]);
        }
        lemma_one_word(d);
    }
}

/// Each line of a difference has one tag, and a side has the lines that are its own and those that
/// both have.
pub proof fn law_lines_of_a_difference(changes: Seq<(ChangeTag, Seq<char>)>)
    ensures
        tagged(changes, ChangeTag::Insert) + tagged(changes, ChangeTag::Delete) + tagged(
            changes,
            ChangeTag::Equal,
        ) == changes.len(),
        side_lines(changes, ChangeTag::Insert) == tagged(changes, ChangeTag::Insert) + tagged(
            changes,
            ChangeTag::Equal,
        ),
        side_lines(changes, ChangeTag::Delete) == tagged(changes, ChangeTag::Delete) + tagged(
            changes,
            ChangeTag::Equal,
        ),
    decreases changes.len(),
{
    if changes.len() > 0 {
        law_lines_of_a_difference(changes.drop_last());
    }
}

/// A side of a difference is that of its parts, one behind the other; a line that stands on the other
/// side alone adds nothing to it, any other line adds itself.
pub proof fn law_sides_of_a_difference(
    a: Seq<(ChangeTag, Seq<char>)>,
    b: Seq<(ChangeTag, Seq<char>)>,
    text: Seq<char>,
)
    ensures
        side(a + b, ChangeTag::Delete) == side(a, ChangeTag::Delete) + side(b, ChangeTag::Delete),
        side(a + b, ChangeTag::Insert) == side(a, ChangeTag::Insert) + side(b, ChangeTag::Insert),
        side(seq![(ChangeTag::Delete, text)], ChangeTag::Delete) == text,
        side(seq![(ChangeTag::Delete, text)], ChangeTag::Insert).len() == 0,
        side(seq![(ChangeTag::Insert, text)], ChangeTag::Insert) == text,
        side(seq![(ChangeTag::Insert, text)], ChangeTag::Delete).len() == 0,
        side(seq![(ChangeTag::Equal, text)], ChangeTag::Insert) == text,
        side(seq![(ChangeTag::Equal, text)], ChangeTag::Delete) == text,
{
    lemma_sides_add_up(a, b, ChangeTag::Delete);
    lemma_sides_add_up(a, b, ChangeTag::Insert);
    lemma_side_of_one(ChangeTag::Delete, text, ChangeTag::Delete);
    lemma_side_of_one(ChangeTag::Delete, text, ChangeTag::Insert);
    lemma_side_of_one(ChangeTag::Insert, text, ChangeTag::Insert);
    lemma_side_of_one(ChangeTag::Insert, text, ChangeTag::Delete);
    lemma_side_of_one(ChangeTag::Equal, text, ChangeTag::Insert);
    lemma_side_of_one(ChangeTag::Equal, text, ChangeTag::Delete);
}

proof fn lemma_side_of_one(own: ChangeTag, text: Seq<char>, tag: ChangeTag)
    ensures
        side(seq![(own, text)], tag) == if own == tag || own == ChangeTag::Equal {
            text
        } else {
            Seq::<char>::empty()
        },
{
    let v = seq![(own, text)];
    assert(v.drop_last() =~= Seq::empty());
    assert(side(v.drop_last(), tag) =~= Seq::<char>::empty());
    assert(Seq::<char>::empty() + text =~= text);
}

proof fn lemma_sides_add_up(a: Seq<(ChangeTag, Seq<char>)>, b: Seq<(ChangeTag, Seq<char>)>, tag: ChangeTag)
    ensures
        side(a + b, tag) == side(a, tag) + side(b, tag),
    decreases b.len(),
{
    if b.len() == 0 {
        assert(a + b =~= a);
        assert(side(a, tag) + side(b, tag) =~= side(a, tag));
    } else {
        let d = b.drop_last();
        lemma_sides_add_up(a, d, tag);
        assert((a + b).drop_last() =~= a + d);
        assert((a + b).last() == b.last());
        assert(side(a + b, tag) =~= side(a, tag) + side(b, tag));
    }
}

/// A line belongs to the function that is named for it, whatever is named for others, and to none
/// where none is.
pub proof fn law_owner_at(names: Seq<Seq<char>>, name: Seq<char>, more: Seq<Seq<char>>, i: int)
    requires
        0 <= i <= names.len(),
    ensures
        owner_at(names.take(i).push(name) + more, i) == name,
        i < names.len() ==> owner_at(names + more, i) == owner_at(names, i) && owner_at(names, i) == names[i],
        owner_at(names.take(i), i) == "<global>"@,
{
}

/// The numbers below `n`.
pub open spec fn below(n: nat) -> Seq<int> {
    Seq::new(n, |i: int| i)
}

proof fn lemma_below(n: nat)
    requires
        n > 0,
    ensures
        below(n).drop_last() == below((n - 1) as nat),
        below(n).last() == n - 1,
{
    assert(below(n).drop_last() =~= below((n - 1) as nat));
}

/// The changed lines of a function are those lines with the tag that stand, on their side of the
/// difference, where that function is: each once, and no others.
pub proof fn law_changes_of_a_function(
    changes: Seq<(ChangeTag, Seq<char>)>,
    tag: ChangeTag,
    names: Seq<Seq<char>>,
    name: Seq<char>,
) -> (at: Seq<int>)
    ensures
        at.len() == owned_changes(changes, tag, names, name),
        is_sieved(
            below(changes.len()),
            at,
            |i: int| changes[i].0 == tag && owner_at(names, side_lines(changes.take(i), tag) as int) == name,
            |i: int| i,
        ),
    decreases changes.len(),
{
    let keep = |i: int| changes[i].0 == tag && owner_at(names, side_lines(changes.take(i), tag) as int) == name;
    let give = |i: int| i;
    let n = changes.len();
    if n == 0 {
        let at = Seq::<int>::empty();
        lemma_sieve_nothing(below(n), at, keep, give);
        at
    } else {
        let d = changes.drop_last();
        let earlier = law_changes_of_a_function(d, tag, names, name);
        let keep_d = |i: int| d[i].0 == tag && owner_at(names, side_lines(d.take(i), tag) as int) == name;
        lemma_below(n);
        assert forall|i: int| 0 <= i < d.len() implies keep_d(i) == #[trigger] keep(i) by {
            assert(d.take(i) =~= changes.take(i));
            assert(d[i] == changes[i]);
        }
        lemma_same_sieve(below(d.len()), earlier, keep_d, keep, give);
        assert(changes.take(n - 1) =~= d);
        let at = if keep(n - 1) {
            earlier.push(n - 1)
        } else {
            earlier
        };
        lemma_sieve_more(below(n), earlier, at, keep, give);
        at
    }
}

proof fn lemma_same_sieve(
    v: Seq<int>,
    kept: Seq<int>,
    keep: spec_fn(int) -> bool,
    other: spec_fn(int) -> bool,
    give: spec_fn(int) -> int,
)
    requires
        is_sieved(v, kept, keep, give),
        v == below(v.len()),
        forall|i: int| 0 <= i < v.len() ==> keep(i) == #[trigger] other(i),
    ensures
        is_sieved(v, kept, other, give),
{
    let at = choose|at: Seq<int>| #[trigger]
        crate::sieve::are_kept(v, at, keep) && at.len() == kept.len() && forall|k: int|
            0 <= k < kept.len() ==> #[trigger] kept[k] == give(v[at[k]]);
    assert forall|k: int| 0 <= k < at.len() implies 0 <= #[trigger] at[k] < v.len() && other(v[at[k]]) by {
        assert(v[at[k]] == at[k]);
        assert(other(at[k]) == keep(at[k]));
    }
    assert forall|i: int| 0 <= i < v.len() && other(#[trigger] v[i]) implies at.contains(i) by {
        assert(v[i] == i);
        assert(keep(v[i]));
    }
    assert(crate::sieve::are_kept(v, at, other));
}

/// The errors that are counted as found are those with a function, each once, and no others.
pub proof fn law_errors_with_a_function_are_counted(es: Seq<ErrorText>) -> (kept: Seq<ErrorText>)
    ensures
        kept.len() == found_count(es),
        is_sieved(es, kept, |e: ErrorText| e.function is Some, |e: ErrorText| e),
    decreases es.len(),
{
    let keep = |e: ErrorText| e.function is Some;
    let give = |e: ErrorText| e;
    if es.len() == 0 {
        let kept = Seq::<ErrorText>::empty();
        lemma_sieve_nothing(es, kept, keep, give);
        kept
    } else {
        let earlier = law_errors_with_a_function_are_counted(es.drop_last());
        let kept = if es.last().function is Some {
            earlier.push(es.last())
        } else {
            earlier
        };
        lemma_sieve_more(es, earlier, kept, keep, give);
        kept
    }
}

/// The type is that of the first block with a method; there is none only where no block has one.
pub proof fn law_first_impl_type(items: Seq<ParsedText>, i: int)
    requires
        0 <= i <= items.len(),
    ensures
        match first_impl_type(items, i) {
            Some(t) => exists|k: int|
                {
                    &&& i <= k < items.len()
                    &&& has_method(#[trigger] items[k])
                    &&& t == path_label(items[k].block->0.type_path)
                    &&& forall|j: int| i <= j < k ==> !has_method(#[trigger] items[j])
                },
            None => forall|j: int| i <= j < items.len() ==> !has_method(#[trigger] items[j]),
        },
    decreases items.len() - i,
{
    if i < items.len() {
        law_first_impl_type(items, i + 1);
        if has_method(items[i]) {
        } else if first_impl_type(items, i + 1) is Some {
            let t = first_impl_type(items, i + 1)->0;
            let k = choose|k: int|
                {
                    &&& i + 1 <= k < items.len()
                    &&& has_method(#[trigger] items[k])
                    &&& t == path_label(items[k].block->0.type_path)
                    &&& forall|j: int| i + 1 <= j < k ==> !has_method(#[trigger] items[j])
                };
            assert(has_method(items[k]));
        }
    }
}

/// White space ends at the first character that is none.
pub proof fn law_blank_end(s: Seq<char>, i: int)
    requires
        0 <= i <= s.len(),
    ensures
        i <= blank_end(s, i) <= s.len(),
        forall|j: int| i <= j < blank_end(s, i) ==> is_space(#[trigger] s[j]),
        blank_end(s, i) < s.len() ==> !is_space(s[blank_end(s, i)]),
    decreases s.len() - i,
{
    if i < s.len() && is_space(s[i]) {
        law_blank_end(s, i + 1);
    }
}

/// The last place of a character before a position holds it, and none between them does.
pub proof fn law_last_before(s: Seq<char>, c: char, e: int)
    requires
        0 <= e <= s.len(),
    ensures
        match last_before(s, c, e) {
            Some(i) => 0 <= i < e && s[i] == c && forall|j: int| i < j < e ==> #[trigger] s[j] != c,
            None => forall|j: int| 0 <= j < e ==> #[trigger] s[j] != c,
        },
    decreases e,
{
    if e > 0 && s[e - 1] != c {
        law_last_before(s, c, e - 1);
    }
}

/// The words from the first `extern` on begin with it, and no word in front of them is one.
pub proof fn law_from_extern(ws: Seq<Seq<char>>)
    ensures
        ({
            let n = ws.len() - from_extern(ws).len();
            &&& 0 <= n <= ws.len()
            &&& from_extern(ws) == ws.skip(n)
            &&& n < ws.len() ==> ws[n] == "extern"@
            &&& forall|j: int| 0 <= j < n ==> #[trigger] ws[j] != "extern"@
        }),
    decreases ws.len(),
{
    if ws.len() == 0 || ws[0] == "extern"@ {
        assert(ws.skip(0) =~= ws);
    } else {
        let d = ws.drop_first();
        law_from_extern(d);
        let n = ws.len() - from_extern(ws).len();
        assert(d.skip(n - 1) =~= ws.skip(n));
        if n < ws.len() {
            assert(d[n - 1] == ws[n]);
        }
        assert forall|j: int| 0 <= j < n implies #[trigger] ws[j] != "extern"@ by {
            if j > 0 {
                assert(d[j - 1] == ws[j]);
            }
        }
    }
}

/// What is told of a block is its first line that says something, at most 120 characters of it.
pub proof fn law_first_telling_line(ls: Seq<Seq<char>>, i: int, k: int)
    requires
        0 <= i <= k < ls.len(),
        !is_idle_line(trimmed(ls[k])),
        forall|j: int| i <= j < k ==> is_idle_line(trimmed(#[trigger] ls[j])),
    ensures
        first_telling_line(ls, i).is_prefix_of(trimmed(ls[k])),
        first_telling_line(ls, i).len() <= 120,
        trimmed(ls[k]).len() <= 120 ==> first_telling_line(ls, i) == trimmed(ls[k]),
        trimmed(ls[k]).len() > 120 ==> first_telling_line(ls, i).len() == 120,
    decreases k - i,
{
    if i < k {
        assert(is_idle_line(trimmed(ls[i])));
        law_first_telling_line(ls, i + 1, k);
    } else {
        let t = trimmed(ls[k]);
        if t.len() == 120 {
            assert(t.take(120) =~= t);
        }
    }
}

/// No column is wider than the width of its column, and one of the rows has it.
pub proof fn law_column_width(rows: Seq<Seq<char>>, k: int)
    ensures
        forall|i: int| 0 <= i < rows.len() ==> column(#[trigger] rows[i], k).len() <= column_width(rows, k),
        rows.len() > 0 ==> exists|i: int|
            0 <= i < rows.len() && column(#[trigger] rows[i], k).len() == column_width(rows, k),
    decreases rows.len(),
{
    if rows.len() > 0 {
        let d = rows.drop_last();
        law_column_width(d, k);
        assert forall|i: int| 0 <= i < rows.len() implies column(#[trigger] rows[i], k).len() <= column_width(
            rows,
            k,
        ) by {
            if i < d.len() {
                assert(d[i] == rows[i]);
            }
        }
        let last = rows[rows.len() - 1];
        if column(last, k).len() > column_width(d, k) || d.len() == 0 {
            assert(column(last, k).len() == column_width(rows, k));
        } else {
            let i = choose|i: int| 0 <= i < d.len() && column(#[trigger] d[i], k).len() == column_width(d, k);
            assert(rows[i] == d[i]);
        }
    }
}

/// The places of the matches that stand somewhere are those of all such matches, in order.
pub proof fn law_places_like(ms: Seq<MatchText>, p: PlaceText)
    ensures
        is_sieved(below(ms.len()), places_like(ms, p), |i: int| stands_at(ms[i], p), |i: int| i),
    decreases ms.len(),
{
    let keep = |i: int| stands_at(ms[i], p);
    let give = |i: int| i;
    let n = ms.len();
    if n == 0 {
        lemma_sieve_nothing(below(n), places_like(ms, p), keep, give);
    } else {
        let d = ms.drop_last();
        law_places_like(d, p);
        lemma_below(n);
        let keep_d = |i: int| stands_at(d[i], p);
        assert forall|i: int| 0 <= i < d.len() implies keep_d(i) == #[trigger] keep(i) by {
            assert(d[i] == ms[i]);
        }
        lemma_same_sieve(below(d.len()), places_like(d, p), keep_d, keep, give);
        lemma_sieve_more(below(n), places_like(d, p), places_like(ms, p), keep, give);
    }
}

/// What stands before the first brace, space or angle bracket of a text: the text up to it, or all of
/// it where it has none.
pub proof fn law_before_type_mark(s: Seq<char>)
    ensures
        ({
            let n = before_type_mark(s).len() as int;
            &&& n <= s.len()
            &&& before_type_mark(s) == s.take(n)
            &&& forall|i: int| 0 <= i < n ==> #[trigger] s[i] != '{' && s[i] != ' ' && s[i] != '<'
            &&& n < s.len() ==> s[n] == '{' || s[n] == ' ' || s[n] == '<'
        }),
    decreases s.len(),
{
    if s.len() > 0 && s[0] != '{' && s[0] != ' ' && s[0] != '<' {
        let d = s.drop_first();
        law_before_type_mark(d);
        let n = before_type_mark(s).len() as int;
        assert(before_type_mark(s) =~= s.take(n));
        assert forall|i: int| 0 <= i < n implies #[trigger] s[i] != '{' && s[i] != ' ' && s[i] != '<' by {
            if i > 0 {
                assert(d[i - 1] == s[i]);
            }
        }
        if n < s.len() {
            assert(d[n - 1] == s[n]);
        }
    } else {
        assert(before_type_mark(s) =~= s.take(0));
    }
}

/// The first argument that is no option is none, and all before it are some.
pub proof fn law_first_plain(args: Seq<Seq<char>>, i: int)
    requires
        0 <= i <= args.len(),
    ensures
        match first_plain(args, i) {
            Some(k) => i <= k < args.len() && !"-"@.is_prefix_of(args[k]) && forall|j: int|
                i <= j < k ==> "-"@.is_prefix_of(#[trigger] args[j]),
            None => forall|j: int| i <= j < args.len() ==> "-"@.is_prefix_of(#[trigger] args[j]),
        },
    decreases args.len() - i,
{
    if i < args.len() && "-"@.is_prefix_of(args[i]) {
        law_first_plain(args, i + 1);
    }
}

/// A file is passed over where it is larger than so many times 1024 bytes, where its name ends as one
/// of the patterns says, or where a zero stands among its first 1024 bytes; a file to which none of
/// that applies, nor an extension that is a pattern, is not.
pub proof fn law_skipped_file(
    path: Seq<char>,
    name: Seq<char>,
    size: u64,
    bytes: Seq<u8>,
    max_kb: nat,
    patterns: Seq<Seq<char>>,
)
    requires
        name_of(path) == Some(name),
    ensures
        size >= (max_kb + 1) * 1024 ==> is_skipped_file(path, Some(size), Some(bytes), max_kb, patterns),
        forall|i: int|
            0 <= i < patterns.len() && (#[trigger] patterns[i]).is_suffix_of(name) ==> is_skipped_file(
                path,
                Some(size),
                Some(bytes),
                max_kb,
                patterns,
            ),
        forall|i: int|
            0 <= i < bytes.len() && i < 1024 && #[trigger] bytes[i] == 0 ==> is_skipped_file(
                path,
                Some(size),
                Some(bytes),
                max_kb,
                patterns,
            ),
        forall|e: Seq<char>, i: int|
            path_extension(path) == Some(e) && 0 <= i < patterns.len() && #[trigger] patterns[i] == "."@
                + #[trigger] lowercase(e) ==> is_skipped_file(path, Some(size), Some(bytes), max_kb, patterns),
        size < (max_kb + 1) * 1024 && patterns.len() == 0 && (forall|i: int|
            0 <= i < bytes.len() && i < 1024 ==> #[trigger] bytes[i] != 0) ==> !is_skipped_file(
            path,
            Some(size),
            Some(bytes),
            max_kb,
            patterns,
        ),
        is_skipped_file(path, Some(size), Some(bytes), max_kb, patterns) <==> is_skipped_file(
            path,
            Some(size),
            None,
            max_kb,
            patterns,
        ) || looks_binary(bytes),
{
    assert(size >= (max_kb + 1) * 1024 <==> size / 1024 > max_kb);
    assert forall|i: int| 0 <= i < patterns.len() && (#[trigger] patterns[i]).is_suffix_of(name) implies is_skipped_file(
        path,
        Some(size),
        Some(bytes),
        max_kb,
        patterns,
    ) by {
        let ext = match path_extension(path) {
            Some(e) => e,
            None => Seq::empty(),
        };
        assert(fits_skip(name, ext, patterns[i]));
    }
    assert forall|e: Seq<char>, i: int|
        path_extension(path) == Some(e) && 0 <= i < patterns.len() && #[trigger] patterns[i] == "."@
            + #[trigger] lowercase(e) implies is_skipped_file(path, Some(size), Some(bytes), max_kb, patterns) by {
        assert(fits_skip(name, e, patterns[i]));
    }
}

proof fn lemma_closest_below(
    nodes: Seq<SymbolNode>,
    path: Seq<char>,
    line: int,
    col: int,
    n: int,
    k: int,
) -> (i: int)
    requires
        0 <= k < n <= nodes.len(),
        encloses(nodes, path, line, col, k),
    ensures
        0 <= i < n,
        encloses(nodes, path, line, col, i),
        forall|j: int| 0 <= j < n && #[trigger] encloses(nodes, path, line, col, j) && j != i ==> closer(nodes, i, j),
    decreases n,
{
    let last = n - 1;
    if !encloses(nodes, path, line, col, last) {
        lemma_closest_below(nodes, path, line, col, last, k)
    } else if exists|j: int| 0 <= j < last && #[trigger] encloses(nodes, path, line, col, j) {
        let j = choose|j: int| 0 <= j < last && #[trigger] encloses(nodes, path, line, col, j);
        let i = lemma_closest_below(nodes, path, line, col, last, j);
        if closer(nodes, i, last) {
            i
        } else {
            assert(closer(nodes, last, i));
            last
        }
    } else {
        last
    }
}

/// Wherever symbols of a file cover a position, the closest is one of them, and none of them spans
/// fewer lines.
pub proof fn law_closest(nodes: Seq<SymbolNode>, path: Seq<char>, line: int, col: int, k: int)
    requires
        encloses(nodes, path, line, col, k),
        nodes[k].full_range.start.line <= nodes[k].full_range.end.line,
    ensures
        ({
            let c = closest(nodes, path, line, col);
            &&& c is Some
            &&& encloses(nodes, path, line, col, c->0)
            &&& ({
                let r = nodes[c->0].full_range;
                let other = nodes[k].full_range;
                r.end.line - r.start.line <= other.end.line - other.start.line
            })
        }),
{
    let i = lemma_closest_below(nodes, path, line, col, nodes.len() as int, k);
    assert(is_closest(nodes, path, line, col, i));
    let c = closest(nodes, path, line, col)->0;
    assert(is_closest(nodes, path, line, col, c));
    if k != c {
        assert(closer(nodes, c, k));
    }
}

} // verus!
