//! What is kept of what a command prints, said of its text.

use vstd::prelude::*;
use crate::bytes::{byte_len, lemma_encode_split};
use crate::ordered::before;
use crate::text::{
    is_word, joined, lemma_lines_without_feeds, lemma_split_joined, lemma_words_are_words, lemma_words_joined,
    lines, repeated, split, words,
};
use crate::wcu::{
    amount, cut_place, pressed, printed, settled, tail, whole_stream, Action, Key, RetainMode, RetainPolicy,
};

verus! {

/// A text that is within the limit is kept whole. Of a longer one as much is kept as the limit
/// allows: so many characters at its end, or its last words.
pub proof fn law_tail_is_as_long_as_allowed(s: Seq<char>, limit: usize)
    ensures
        s.len() <= limit ==> tail(s, RetainPolicy { mode: RetainMode::Chars, limit }) == s,
        s.len() > limit ==> {
            let t = tail(s, RetainPolicy { mode: RetainMode::Chars, limit });
            t.len() == limit && t.is_suffix_of(s)
        },
        words(s).len() <= limit ==> tail(s, RetainPolicy { mode: RetainMode::Words, limit }) == s,
        words(s).len() > limit ==> {
            let t = tail(s, RetainPolicy { mode: RetainMode::Words, limit });
            words(t).len() == limit && words(t).is_suffix_of(words(s))
        },
        byte_len(s) <= limit ==> tail(s, RetainPolicy { mode: RetainMode::Bytes, limit }) == s,
        lines(s).len() <= limit ==> tail(s, RetainPolicy { mode: RetainMode::Lines, limit }) == s,
{
    let all = words(s);
    if s.len() > limit {
        let t = s.skip(s.len() - limit);
        assert(t =~= s.subrange(s.len() - t.len(), s.len() as int));
    }
    if all.len() > limit {
        let kept = all.skip(all.len() - limit);
        lemma_words_are_words(s);
        assert forall|i: int| 0 <= i < kept.len() implies is_word(#[trigger] kept[i]) by {
            assert(kept[i] == all[all.len() - limit + i]);
        }
        lemma_words_joined(kept);
        assert(kept =~= all.subrange(all.len() - kept.len(), all.len() as int));
    }
}

/// Of a text with more lines than allowed, the last ones are kept, as many as allowed, and the line
/// feed at its end where it has one.
pub proof fn law_last_lines_are_kept(s: Seq<char>, limit: usize)
    requires
        0 < limit < lines(s).len(),
    ensures
        ({
            let all = lines(s);
            let got = split(tail(s, RetainPolicy { mode: RetainMode::Lines, limit }), '\n');
            let ends = s.len() > 0 && s.last() == '\n';
            &&& got.len() == limit + if ends {
                1int
            } else {
                0int
            }
            &&& forall|i: int| 0 <= i < limit ==> #[trigger] got[i] == all[all.len() - limit + i]
            &&& ends ==> got.last().len() == 0
        }),
{
    let all = lines(s);
    let none = Seq::<char>::empty();
    let kept = all.skip(all.len() - limit);
    lemma_lines_without_feeds(s);
    reveal_strlit("\n");
    assert("\n"@ =~= seq!['\n']);
    let ends = s.len() > 0 && s.last() == '\n';
    assert("\n"@.is_suffix_of(s) == ends) by {
        if "\n"@.is_suffix_of(s) {
            assert("\n"@ == s.subrange(s.len() - 1, s.len() as int));
            assert(s.subrange(s.len() - 1, s.len() as int)[0] == s[s.len() - 1]);
        }
        if ends {
            assert("\n"@ =~= s.subrange(s.len() - 1, s.len() as int));
        }
    }
    let rows = if ends {
        kept.push(none)
    } else {
        kept
    };
    assert forall|i: int, j: int| 0 <= i < rows.len() && 0 <= j < rows[i].len() implies #[trigger] rows[i][j]
        != '\n' by {
        if i < kept.len() {
            assert(rows[i] == all[all.len() - limit + i]);
        }
    }
    lemma_split_joined(rows, '\n');
    if ends {
        assert(rows.drop_last() =~= kept);
        assert(joined(rows, "\n"@) =~= joined(kept, "\n"@) + "\n"@);
    } else {
        assert(joined(kept, "\n"@) + none =~= joined(kept, "\n"@));
    }
}

/// Of a text with more bytes than allowed, so many bytes are kept: the characters that fit whole,
/// and one sign for each byte of the one that is cut.
pub proof fn law_last_bytes_are_kept(s: Seq<char>, limit: usize)
    requires
        byte_len(s) > limit,
    ensures
        exists|stray: nat, k: int|
            stray <= 3 && 0 <= k <= s.len() && tail(s, RetainPolicy { mode: RetainMode::Bytes, limit })
                == #[trigger] repeated('\u{fffd}', stray) + #[trigger] s.skip(k) && byte_len(s.skip(k)) + stray
                == limit,
{
    let cut = byte_len(s) - limit;
    let k = cut_place(s, cut, 0);
    lemma_cut(s, cut, 0);
    let stray = (byte_len(s.take(k)) - cut) as nat;
    lemma_encode_split(s, k);
    assert(byte_len(s) == byte_len(s.take(k)) + byte_len(s.skip(k)));
    assert(tail(s, RetainPolicy { mode: RetainMode::Bytes, limit }) == repeated('\u{fffd}', stray) + s.skip(k));
}

proof fn lemma_cut(s: Seq<char>, cut: int, k: int)
    requires
        0 <= k <= s.len(),
        0 < cut <= byte_len(s),
        k > 0 ==> byte_len(s.take(k - 1)) < cut,
    ensures
        ({
            let r = cut_place(s, cut, k);
            &&& 0 <= r <= s.len()
            &&& cut <= byte_len(s.take(r)) <= cut + 3
        }),
    decreases s.len() - k,
{
    if k >= s.len() || byte_len(s.take(k)) >= cut {
        assert(s.take(s.len() as int) =~= s);
        if k > 0 {
            crate::bytes::lemma_byte_step(s, k - 1);
        } else {
            assert(s.take(0) =~= Seq::<char>::empty());
            assert(byte_len(s.take(0)) == 0) by {
                crate::bytes::lemma_encode_concat(s.take(0), s.take(0));
                assert(s.take(0) + s.take(0) =~= s.take(0));
            }
        }
    } else {
        lemma_cut(s, cut, k + 1);
    }
}

proof fn lemma_before(a: Seq<char>, b: Seq<char>)
    ensures
        before(a, b) ==> exists|k: int| #[trigger] decides(a, b, k),
    decreases a.len(),
{
    if before(a, b) {
        if a.len() == 0 {
            assert(a.take(0) =~= b.take(0));
            assert(decides(a, b, 0));
        } else if a[0] != b[0] {
            assert(a.take(0) =~= b.take(0));
            assert(decides(a, b, 0));
        } else {
            let x = a.drop_first();
            let y = b.drop_first();
            lemma_before(x, y);
            let k = choose|k: int| #[trigger] decides(x, y, k);
            assert(a.take(k + 1) =~= seq![a[0]] + x.take(k));
            assert(b.take(k + 1) =~= seq![b[0]] + y.take(k));
            assert(decides(a, b, k + 1));
        }
    }
}

/// Whether two texts are the same up to place `k`, and there the first one ends before the second
/// one or has the smaller character.
pub open spec fn decides(a: Seq<char>, b: Seq<char>, k: int) -> bool {
    &&& 0 <= k <= a.len()
    &&& k < b.len()
    &&& a.take(k) == b.take(k)
    &&& k == a.len() || a[k] < b[k]
}

proof fn lemma_decides(a: Seq<char>, b: Seq<char>, k: int)
    requires
        decides(a, b, k),
    ensures
        before(a, b),
    decreases a.len(),
{
    if k > 0 {
        assert(a.take(k)[0] == a[0]);
        assert(b.take(k)[0] == b[0]);
        let x = a.drop_first();
        let y = b.drop_first();
        assert(x.take(k - 1) =~= a.take(k).drop_first());
        assert(y.take(k - 1) =~= b.take(k).drop_first());
        lemma_decides(x, y, k - 1);
    }
}

/// One text comes before another exactly where, at the first place at which they differ, it ends or
/// has the smaller character.
pub proof fn law_order_of_texts(a: Seq<char>, b: Seq<char>)
    ensures
        before(a, b) <==> exists|k: int| #[trigger] decides(a, b, k),
{
    lemma_before(a, b);
    if exists|k: int| #[trigger] decides(a, b, k) {
        let k = choose|k: int| #[trigger] decides(a, b, k);
        lemma_decides(a, b, k);
    }
}

/// Down and up move by one place within the list and undo each other where the list has a place
/// there; the other keys leave the place, and ask for something only of a place of the list.
pub proof fn law_keys_move_by_one(selected: usize, len: usize)
    requires
        selected < len,
    ensures
        selected + 1 < len ==> pressed(selected, len, Key::Down).0 == selected + 1,
        selected + 1 == len ==> pressed(selected, len, Key::Down).0 == selected,
        selected > 0 ==> pressed(selected, len, Key::Up).0 == selected - 1,
        selected == 0 ==> pressed(selected, len, Key::Up).0 == 0,
        selected + 1 < len ==> pressed(pressed(selected, len, Key::Down).0, len, Key::Up).0 == selected,
        pressed(selected, len, Key::Delete) == (selected, Action::Delete(selected)),
        pressed(selected, len, Key::Copy) == (selected, Action::Copy(selected)),
        pressed(selected, len, Key::Quit) == (selected, Action::Quit),
        pressed(selected, 0, Key::Delete).1 == Action::Nothing,
        pressed(selected, 0, Key::Copy).1 == Action::Nothing,
        settled(selected, len) == selected,
        settled(len, len) == len - 1,
{
}

/// What is kept of a stream by characters is the end of all that it has printed, in whatever pieces:
/// as many characters as the limit allows, or all of them.
pub proof fn law_last_characters_of_a_stream(chunks: Seq<Seq<char>>, limit: usize)
    ensures
        ({
            let all = whole_stream(chunks);
            let kept = printed(chunks, RetainPolicy { mode: RetainMode::Chars, limit }).0;
            &&& all.len() <= limit ==> kept == all
            &&& all.len() > limit ==> kept == all.skip(all.len() - limit)
        }),
    decreases chunks.len(),
{
    let retain = RetainPolicy { mode: RetainMode::Chars, limit };
    let all = whole_stream(chunks);
    if chunks.len() > 0 {
        let d = chunks.drop_last();
        law_last_characters_of_a_stream(d, limit);
        let had = whole_stream(d);
        let held = printed(d, retain).0;
        let s = held + chunks.last();
        let kept = printed(chunks, retain).0;
        if all.len() <= limit {
            assert(kept =~= all);
        } else {
            assert(kept =~= all.skip(all.len() - limit));
        }
    }
}

/// A stream that has never printed more than the limit allows is kept whole, whatever is counted.
pub proof fn law_short_stream_is_kept_whole(chunks: Seq<Seq<char>>, retain: RetainPolicy)
    requires
        forall|k: int|
            0 <= k <= chunks.len() ==> amount(#[trigger] whole_stream(chunks.take(k)), retain.mode)
                <= retain.limit,
    ensures
        printed(chunks, retain).0 == whole_stream(chunks),
    decreases chunks.len(),
{
    assert(chunks.take(chunks.len() as int) =~= chunks);
    assert(amount(whole_stream(chunks.take(chunks.len() as int)), retain.mode) <= retain.limit);
    if chunks.len() > 0 {
        let d = chunks.drop_last();
        assert forall|k: int| 0 <= k <= d.len() implies amount(#[trigger] whole_stream(d.take(k)), retain.mode)
            <= retain.limit by {
            assert(d.take(k) =~= chunks.take(k));
        }
        law_short_stream_is_kept_whole(d, retain);
    }
}

} // verus!
