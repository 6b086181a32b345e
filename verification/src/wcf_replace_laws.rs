//! What replacing a block does to its file, and how a run goes from block to block.

use vstd::prelude::*;
use crate::config::means_yes;
use crate::syntax::{FnHeadText, ItemText};
use crate::text::{count_of, joined, lines, occurs, trimmed, without_char, without_end};
use crate::text_laws::law_lines_make_the_text;
use crate::wcf::MatchText;
use crate::wcf_flow::{SessionText, Step};
use crate::wcf_replace::{
    first_function, lines_replaced, new_text, once_replaced, range_fits, rebuilt, syntax_replaced, text_replaced,
    zero_based, ReplaceErrorText, ReplacementText,
};
use crate::wcf_session::{place, stands_at, Outcome, PreviewAnswer};

verus! {

/// Parts that are joined in two lots are joined as one.
pub proof fn lemma_joined_lots(a: Seq<Seq<char>>, b: Seq<Seq<char>>, sep: Seq<char>)
    requires
        a.len() > 0,
        b.len() > 0,
    ensures
        joined(a + b, sep) == joined(a, sep) + sep + joined(b, sep),
    decreases b.len(),
{
    let all = a + b;
    assert(all.drop_last() =~= a + b.drop_last());
    assert(all.last() == b.last());
    if b.len() == 1 {
        assert(all.drop_last() =~= a);
        assert(joined(all, sep) =~= joined(a, sep) + sep + joined(b, sep));
    } else {
        lemma_joined_lots(a, b.drop_last(), sep);
        assert(joined(all, sep) =~= joined(a, sep) + sep + joined(b, sep));
    }
}

/// Lines that are replaced make room for the new text: the lines before them stand in front of it,
/// those behind them behind it, and the text ends as it ended.
pub proof fn law_lines_around_stay(content: Seq<char>, start: int, end: int, new: Seq<char>)
    requires
        0 <= start <= end < lines(content).len(),
    ensures
        ({
            let ls = lines(content);
            let front = if start > 0 {
                joined(ls.take(start), "\n"@) + "\n"@
            } else {
                Seq::empty()
            };
            let back = if end + 1 < ls.len() {
                "\n"@ + joined(ls.skip(end + 1), "\n"@)
            } else {
                Seq::empty()
            };
            let close = if "\n"@.is_suffix_of(content) {
                "\n"@
            } else {
                Seq::empty()
            };
            lines_replaced(content, start, end, new) == front + without_end(new, '\n') + back + close
        }),
{
    let ls = lines(content);
    let a = ls.take(start);
    let m = seq![without_end(new, '\n')];
    let b = ls.skip(end + 1);
    assert(joined(m, "\n"@) == without_end(new, '\n'));
    if start > 0 {
        lemma_joined_lots(a, m, "\n"@);
    } else {
        assert(a + m =~= m);
    }
    if end + 1 < ls.len() {
        lemma_joined_lots(a + m, b, "\n"@);
    } else {
        assert(a + m + b =~= a + m);
    }
    let close = if "\n"@.is_suffix_of(content) {
        "\n"@
    } else {
        Seq::empty()
    };
    let front = if start > 0 {
        joined(a, "\n"@) + "\n"@
    } else {
        Seq::empty()
    };
    let back = if end + 1 < ls.len() {
        "\n"@ + joined(b, "\n"@)
    } else {
        Seq::empty()
    };
    assert(joined(a + m + b, "\n"@) =~= front + without_end(new, '\n') + back);
}

proof fn lemma_joined_end(parts: Seq<Seq<char>>)
    requires
        parts.len() > 0,
        parts.last().len() > 0,
        without_char(parts, '\n'),
    ensures
        joined(parts, "\n"@).len() > 0,
        joined(parts, "\n"@).last() != '\n',
{
    let t = parts[parts.len() - 1];
    assert(joined(parts, "\n"@).last() == t.last());
    assert(parts[parts.len() - 1][t.len() - 1] != '\n');
}

/// Lines that are replaced by themselves change nothing, where neither the last of them nor that of
/// the text is empty.
pub proof fn law_same_lines_change_nothing(content: Seq<char>, start: int, end: int)
    requires
        !content.contains('\r'),
        0 <= start <= end < lines(content).len(),
        lines(content)[end].len() > 0,
        lines(content).last().len() > 0,
    ensures
        lines_replaced(content, start, end, joined(lines(content).subrange(start, end + 1), "\n"@)) == content,
{
    let ls = lines(content);
    let m = ls.subrange(start, end + 1);
    let new = joined(m, "\n"@);
    let a = ls.take(start);
    let b = ls.skip(end + 1);
    law_lines_around_stay(content, start, end, new);
    law_lines_make_the_text(content);
    assert(m.last() == ls[end]);
    assert forall|i: int, j: int| 0 <= i < m.len() && 0 <= j < m[i].len() implies #[trigger] m[i][j] != '\n' by {
        assert(m[i] == ls[start + i]);
        assert(ls[start + i][j] != '\n');
    }
    lemma_joined_end(m);
    lemma_joined_end(ls);
    assert(without_end(new, '\n') == new);
    reveal_strlit("\n");
    assert("\n"@ =~= seq!['\n']);
    if "\n"@.is_suffix_of(content) {
        assert(content.subrange(content.len() - 1, content.len() as int)[0] == '\n');
    } else if content == joined(ls, "\n"@) + "\n"@ {
        assert("\n"@ =~= content.subrange(content.len() - 1, content.len() as int));
    }
    assert(ls =~= a + m + b);
    if start > 0 {
        lemma_joined_lots(a, m, "\n"@);
    } else {
        assert(a + m =~= m);
    }
    if end + 1 < ls.len() {
        lemma_joined_lots(a + m, b, "\n"@);
    } else {
        assert(a + m + b =~= a + m);
    }
    assert(lines_replaced(content, start, end, new) =~= content);
}

/// Lines from one on can be replaced where they stand in the text in this order; line zero counts as
/// the first one.
pub proof fn law_range_fits(content: Seq<char>, a: int, b: int)
    requires
        a >= 1,
        b >= 1,
    ensures
        range_fits(content, (a, b)) <==> a <= b <= lines(content).len(),
        range_fits(content, (0, b)) <==> range_fits(content, (1, b)),
        zero_based(a) + 1 == a,
        zero_based(0) == 0,
{
}

/// A text is exchanged at its one place, where it has just one.
pub proof fn law_only_one_place_is_replaced(content: Seq<char>, old_block: Seq<char>, new: Seq<char>)
    ensures
        once_replaced(content, old_block, new) is Some ==> old_block.len() > 0 && count_of(content, old_block) == 1,
{
}

/// A function is replaced on its lines where they are known and stand in the file; else at the one
/// place where its text stands; else at its one place in the formatted file; and it keeps the
/// modifiers that it had.
pub proof fn law_function_is_replaced(
    content: Seq<char>,
    m: MatchText,
    new: Seq<char>,
    formatted_old: Seq<char>,
    formatted_content: Seq<char>,
)
    ensures
        ({
            let r = text_replaced(content, m, new, formatted_old, formatted_content);
            let kept = without_end(new_text(m, new), '\n');
            let by_lines = m.line_range is Some && (m.line_range->0).0 <= (m.line_range->0).1 <= lines(
                content,
            ).len();
            &&& by_lines ==> r == Some(
                lines_replaced(content, (m.line_range->0).0 - 1, (m.line_range->0).1 - 1, new_text(m, new)),
            )
            &&& !by_lines && trimmed(m.old_full_block).len() > 0 && once_replaced(
                content,
                trimmed(m.old_full_block),
                kept,
            ) is Some ==> r == once_replaced(content, trimmed(m.old_full_block), kept)
            &&& !by_lines && trimmed(m.old_full_block).len() > 0 && once_replaced(
                content,
                trimmed(m.old_full_block),
                kept,
            ) is None ==> r == once_replaced(formatted_content, trimmed(formatted_old), kept)
            &&& !by_lines && trimmed(m.old_full_block).len() == 0 ==> r is None
        }),
{
}

/// A function that cannot be replaced by its text is rebuilt in the parsed file: the first one of
/// its name. A method is not; nor is anything where the file or the new function does not parse.
pub proof fn law_function_is_rebuilt(m: MatchText, items: Seq<ItemText>, head: FnHeadText)
    ensures
        occurs(m.block_name, " (in impl "@) ==> syntax_replaced(m, Some(items), Some(head)) is Err,
        !occurs(m.block_name, " (in impl "@) ==> {
            &&& match first_function(items, m.block_name, 0) {
                Some(i) => syntax_replaced(m, Some(items), Some(head)) == Ok::<ReplacementText, ReplaceErrorText>(
                    rebuilt(i, m.head, head),
                ),
                None => syntax_replaced(m, Some(items), Some(head)) is Err,
            }
            &&& syntax_replaced(m, None, Some(head)) == Err::<ReplacementText, ReplaceErrorText>(
                ReplaceErrorText::Content,
            )
            &&& syntax_replaced(m, Some(items), None) == Err::<ReplacementText, ReplaceErrorText>(
                ReplaceErrorText::Block,
            )
        },
{
}

/// Whether a run went on from the block at hand to the next one, with one entry more in the list of
/// `o`, the other lists and the blocks being the same.
pub open spec fn dealt_with(s: SessionText, t: SessionText, o: Outcome) -> bool {
    &&& t.at == s.at + 1
    &&& t.blocks == s.blocks
    &&& t.previews == s.previews
    &&& t.tally.processed.len() == s.tally.processed.len() + (if o is Processed {
        1int
    } else {
        0
    })
    &&& t.tally.unchanged.len() == s.tally.unchanged.len() + (if o is Unchanged {
        1int
    } else {
        0
    })
    &&& t.tally.declined.len() == s.tally.declined.len() + (if o is Declined {
        1int
    } else {
        0
    })
    &&& t.tally.not_found.len() == s.tally.not_found.len() + (if o is NotFound {
        1int
    } else {
        0
    })
    &&& s.tally.processed.is_prefix_of(t.tally.processed)
    &&& s.tally.unchanged.is_prefix_of(t.tally.unchanged)
    &&& s.tally.declined.is_prefix_of(t.tally.declined)
    &&& s.tally.not_found.is_prefix_of(t.tally.not_found)
}

/// Whether a run is still at the same block, with nothing listed.
pub open spec fn still_at(s: SessionText, t: SessionText) -> bool {
    t.at == s.at && t.blocks == s.blocks && t.tally == s.tally && t.previews == s.previews
}

/// Whether a run goes on with the next block, or is done where there is none.
pub open spec fn goes_on(t: SessionText, step: Step) -> bool {
    &&& t.at >= t.blocks.len() <==> step == Step::Done
    &&& t.at < t.blocks.len() ==> step == if t.previews {
        Step::Preview
    } else {
        Step::Scan
    }
}

/// A block that is not wanted after its preview is declined; one that is wanted is searched for; no
/// more blocks are dealt with where none is wanted.
pub proof fn law_preview(s: SessionText)
    requires
        s.is_open(),
    ensures
        dealt_with(s, s.answered(PreviewAnswer::Skip).0, Outcome::Declined),
        goes_on(s.answered(PreviewAnswer::Skip).0, s.answered(PreviewAnswer::Skip).1),
        s.answered(PreviewAnswer::Continue) == (s, Step::Scan),
        s.answered(PreviewAnswer::SkipAll) == (s, Step::Done),
{
}

/// A block that is not found is listed as such; one that is found once is compared at its place; of
/// several one is chosen, unless the place of the last block of its name is among them.
pub proof fn law_search(s: SessionText, ms: Seq<MatchText>)
    requires
        s.is_open(),
    ensures
        ms.len() == 0 ==> dealt_with(s, s.found(ms).0, Outcome::NotFound) && goes_on(s.found(ms).0, s.found(ms).1)
            && s.found(ms).0.last is None,
        ms.len() > 0 ==> still_at(s, s.found(ms).0),
        ms.len() == 1 ==> s.found(ms).1 == Step::Compare && s.found(ms).0.last == Some(place(ms[0])),
        ms.len() > 1 && s.last is None ==> s.found(ms).1 == Step::Choose && s.found(ms).0.last is None,
        ms.len() > 1 && (s.last matches Some(p) && p.block_name != s.blocks[s.at].0) ==> s.found(ms).1
            == Step::Choose,
{
    if ms.len() == 1 && s.recalls(ms) {
        let p = s.last->0;
        crate::count_laws::law_places_like(ms, p);
        crate::sieve::lemma_sieved(
            crate::count_laws::below(ms.len()),
            crate::wcf_session::places_like(ms, p),
            |i: int| stands_at(ms[i], p),
            |i: int| i,
        );
        assert(s.kept(ms).len() == 1);
        assert(s.kept(ms)[0] == 0) by {
            let b = crate::count_laws::below(ms.len());
            let ps = crate::wcf_session::places_like(ms, p);
            assert(crate::sieve::comes_from(b, ps[0], |i: int| stands_at(ms[i], p), |i: int| i));
        }
    }
    if ms.len() == 0 && s.last is Some {
        assert(crate::wcf_session::places_like(ms, s.last->0).len() == 0);
    }
}

/// A match that is chosen is compared, and its place kept; none chosen is declined. A block that is
/// as the match is listed as unchanged, one that differs is asked for once more, and only a yes
/// applies it.
pub proof fn law_choice_and_question(s: SessionText, m: MatchText, input: Seq<char>)
    requires
        s.is_open(),
    ensures
        still_at(s, s.chosen(Some(m)).0) && s.chosen(Some(m)).1 == Step::Compare,
        s.chosen(Some(m)).0.last == Some(place(m)),
        dealt_with(s, s.chosen(None).0, Outcome::Declined) && goes_on(s.chosen(None).0, s.chosen(None).1),
        dealt_with(s, s.compared(false).0, Outcome::Unchanged) && goes_on(s.compared(false).0, s.compared(false).1),
        s.compared(true) == (s, Step::Confirm),
        means_yes(input) ==> s.confirmed(input) == (s, Step::Apply),
        !means_yes(input) ==> dealt_with(s, s.confirmed(input).0, Outcome::Declined) && goes_on(
            s.confirmed(input).0,
            s.confirmed(input).1,
        ) && s.confirmed(input).0.last is None,
        dealt_with(s, s.applied().0, Outcome::Processed) && goes_on(s.applied().0, s.applied().1),
{
}

} // verus!
