//! What blocks a clipboard text and a source file have, said of their items and of their text.

use vstd::prelude::*;
use crate::braces::{closing_line, scanned};
use crate::braces_laws::surplus;
use crate::sieve::{is_sieved, lemma_sieve_more, lemma_sieve_nothing};
use crate::syntax::{ItemKind, ItemText};
use crate::text::{count_of, find_from, lines, occurs_at, trimmed};
use crate::text_laws::law_found_first;
use crate::wcf::{
    begins_at, block_end, candidates, first_range, item_blocks, item_matches, line_range_of, method_blocks,
    named_blocks, normalized, parsed_name, range_end, source_blocks, BlockText, CodeBlockType, MatchText, ParsedText,
};
use crate::wcf_laws::lemma_surplus_step;
use crate::wcf_replace::{first_function, once_replaced};

verus! {

/// The methods among the members of an `impl` block are all its functions, in order, each with its
/// name and its text.
pub proof fn law_methods_are_blocks(v: Seq<ItemText>)
    ensures
        is_sieved(
            v,
            method_blocks(v),
            |m: ItemText| m.kind == ItemKind::Function,
            |m: ItemText| (m.name, CodeBlockType::Function, m.tokens),
        ),
    decreases v.len(),
{
    let keep = |m: ItemText| m.kind == ItemKind::Function;
    let give = |m: ItemText| (m.name, CodeBlockType::Function, m.tokens);
    let all = method_blocks(v);
    if v.len() == 0 {
        lemma_sieve_nothing(v, all, keep, give);
    } else {
        let earlier = method_blocks(v.drop_last());
        law_methods_are_blocks(v.drop_last());
        if keep(v.last()) {
            assert(all =~= earlier.push(give(v.last())));
        } else {
            assert(all =~= earlier);
        }
        lemma_sieve_more(v, earlier, all, keep, give);
    }
}

/// The blocks of a source text are those of its parts, one after the other: a function, a struct
/// or an enum gives itself, an `impl` block its methods, anything else nothing.
pub proof fn law_blocks_are_those_of_the_items(a: Seq<ParsedText>, b: Seq<ParsedText>)
    ensures
        source_blocks(a + b) == source_blocks(a) + source_blocks(b),
        b.len() == 0 ==> source_blocks(b).len() == 0,
        b.len() == 1 ==> source_blocks(b) == {
            let x = b[0].item;
            match x.kind {
                ItemKind::Function => seq![(x.name, CodeBlockType::Function, x.tokens)],
                ItemKind::Struct => seq![(x.name, CodeBlockType::Struct, x.tokens)],
                ItemKind::Enum => seq![(x.name, CodeBlockType::Enum, x.tokens)],
                ItemKind::Impl => if b[0].block is Some {
                    method_blocks(b[0].block->0.members)
                } else {
                    Seq::empty()
                },
                ItemKind::Other => Seq::empty(),
            }
        },
    decreases b.len(),
{
    if b.len() == 0 {
        assert(a + b =~= a);
        assert(source_blocks(a) + source_blocks(b) =~= source_blocks(a));
    } else {
        let d = b.drop_last();
        law_blocks_are_those_of_the_items(a, d);
        assert((a + b).drop_last() =~= a + d);
        assert((a + b).last() == b.last());
        assert(source_blocks(a + b) =~= source_blocks(a) + source_blocks(b));
        if b.len() == 1 {
            assert(source_blocks(d) =~= Seq::<BlockText>::empty());
            assert(source_blocks(b) =~= item_blocks(b[0]));
        }
    }
}

/// Whether the brace right before `e` closes the first block that is opened from `a` on: one brace
/// is open before it.
pub open spec fn closes_block(s: Seq<char>, a: int, e: int) -> bool {
    a < e <= s.len() && s[e - 1] == '}' && surplus(s.subrange(a, e - 1), '{', '}') == 1
}

proof fn lemma_block_end(s: Seq<char>, a: int, i: int, opened: bool)
    requires
        0 <= a <= i <= s.len(),
        surplus(s.subrange(a, i), '{', '}') > 0 ==> opened,
        forall|e: int| e <= i ==> !#[trigger] closes_block(s, a, e),
    ensures
        match block_end(s, i, surplus(s.subrange(a, i), '{', '}'), opened) {
            Some(e) => closes_block(s, a, e) && forall|x: int| x < e ==> !#[trigger] closes_block(s, a, x),
            None => forall|e: int| !#[trigger] closes_block(s, a, e),
        },
    decreases s.len() - i,
{
    if i < s.len() {
        lemma_surplus_step(s, a, i, '{', '}');
        if s[i] == '}' && surplus(s.subrange(a, i), '{', '}') == 1 {
            assert(closes_block(s, a, i + 1));
            assert(opened);
        } else {
            assert(!closes_block(s, a, i + 1));
            assert forall|e: int| e <= i + 1 implies !#[trigger] closes_block(s, a, e) by {
                if e <= i {
                    assert(!closes_block(s, a, e));
                }
            }
            lemma_block_end(s, a, i + 1, opened || s[i] == '{');
        }
    }
}

/// A block ends behind the first brace before which, from where it is searched on, one is open; it
/// has no end only where there is no such brace.
pub proof fn law_block_end(s: Seq<char>, a: int)
    requires
        0 <= a <= s.len(),
    ensures
        match block_end(s, a, 0, false) {
            Some(e) => closes_block(s, a, e) && forall|x: int| x < e ==> !#[trigger] closes_block(s, a, x),
            None => forall|e: int| !#[trigger] closes_block(s, a, e),
        },
{
    assert(s.subrange(a, a) =~= Seq::<char>::empty());
    assert(surplus(Seq::<char>::empty(), '{', '}') == 0);
    lemma_block_end(s, a, a, false);
}

/// Whether `p` is one of the places or lies inside of the block at one of them.
#[verifier::opaque]
pub open spec fn is_inside(s: Seq<char>, at: Seq<int>, p: int) -> bool {
    exists|k: int| 0 <= k < at.len() && #[trigger] at[k] <= p && p < block_end(s, at[k], 0, false)->0
}

/// Whether the keyword stands at a place from `pos` to `p` behind which no block is closed.
pub open spec fn is_cut_off(s: Seq<char>, keyword: Seq<char>, pos: int, p: int) -> bool {
    exists|q: int| pos <= q <= p && #[trigger] occurs_at(s, keyword, q) && block_end(s, q, 0, false) is None
}

/// Whether `at` are the places from `pos` on of the texts that begin with the keyword: each is
/// one, each lies behind the block at the one before, and every other place of the keyword lies
/// inside of one of these blocks, unless a place at or before it has no block.
pub open spec fn are_texts(s: Seq<char>, keyword: Seq<char>, pos: int, at: Seq<int>) -> bool {
    &&& forall|k: int|
        0 <= k < at.len() ==> pos <= #[trigger] at[k] && occurs_at(s, keyword, at[k]) && block_end(
            s,
            at[k],
            0,
            false,
        ) is Some
    &&& forall|k: int, l: int|
        0 <= k < l < at.len() ==> block_end(s, #[trigger] at[k], 0, false)->0 <= #[trigger] at[l]
    &&& forall|p: int|
        pos <= p && #[trigger] occurs_at(s, keyword, p) ==> is_inside(s, at, p) || is_cut_off(
            s,
            keyword,
            pos,
            p,
        )
}

/// The texts at some places, each up to the end of its block.
pub open spec fn texts_at(s: Seq<char>, at: Seq<int>) -> Seq<Seq<char>> {
    at.map_values(|p: int| s.subrange(p, block_end(s, p, 0, false)->0))
}

proof fn lemma_inside_more(s: Seq<char>, first: int, rest: Seq<int>, p: int)
    requires
        is_inside(s, rest, p) || first <= p < block_end(s, first, 0, false)->0,
    ensures
        is_inside(s, seq![first] + rest, p),
{
    reveal(is_inside);
    let all = seq![first] + rest;
    if first <= p < block_end(s, first, 0, false)->0 {
        assert(all[0] <= p);
    } else {
        let k = choose|k: int|
            0 <= k < rest.len() && #[trigger] rest[k] <= p && p < block_end(s, rest[k], 0, false)->0;
        assert(all[k + 1] == rest[k]);
    }
}

proof fn lemma_texts(s: Seq<char>, keyword: Seq<char>, pos: int)
    requires
        0 <= pos,
    ensures
        exists|at: Seq<int>| #[trigger]
            are_texts(s, keyword, pos, at) && candidates(s, keyword, pos) == texts_at(s, at),
    decreases s.len() - pos,
{
    law_found_first(s, keyword, pos);
    let none = Seq::<int>::empty();
    match find_from(s, keyword, pos) {
        None => {
            assert(are_texts(s, keyword, pos, none));
            assert(candidates(s, keyword, pos) =~= texts_at(s, none));
        },
        Some(a) => {
            assert(occurs_at(s, keyword, a));
            law_block_end(s, a);
            match block_end(s, a, 0, false) {
                None => {
                    assert forall|p: int| pos <= p && #[trigger] occurs_at(s, keyword, p) implies is_inside(
                        s,
                        none,
                        p,
                    ) || is_cut_off(s, keyword, pos, p) by {
                        if p < a {
                            assert(!occurs_at(s, keyword, p));
                        }
                        assert(is_cut_off(s, keyword, pos, p));
                    }
                    assert(are_texts(s, keyword, pos, none));
                    assert(candidates(s, keyword, pos) =~= texts_at(s, none));
                },
                Some(e) => {
                    lemma_texts(s, keyword, e);
                    let rest = choose|at: Seq<int>| #[trigger]
                        are_texts(s, keyword, e, at) && candidates(s, keyword, e) == texts_at(s, at);
                    let at = seq![a] + rest;
                    assert forall|k: int| 0 <= k < at.len() implies pos <= #[trigger] at[k] && occurs_at(
                        s,
                        keyword,
                        at[k],
                    ) && block_end(s, at[k], 0, false) is Some by {
                        if k > 0 {
                            assert(at[k] == rest[k - 1]);
                        }
                    }
                    assert forall|k: int, l: int| 0 <= k < l < at.len() implies block_end(
                        s,
                        #[trigger] at[k],
                        0,
                        false,
                    )->0 <= #[trigger] at[l] by {
                        assert(at[l] == rest[l - 1]);
                        if k > 0 {
                            assert(at[k] == rest[k - 1]);
                        }
                    }
                    assert forall|p: int| pos <= p && #[trigger] occurs_at(s, keyword, p) implies is_inside(
                        s,
                        at,
                        p,
                    ) || is_cut_off(s, keyword, pos, p) by {
                        if p < a {
                            assert(!occurs_at(s, keyword, p));
                        } else if p < e || is_inside(s, rest, p) {
                            lemma_inside_more(s, a, rest, p);
                        } else {
                            assert(is_cut_off(s, keyword, e, p));
                            let q = choose|q: int|
                                e <= q <= p && #[trigger] occurs_at(s, keyword, q) && block_end(
                                    s,
                                    q,
                                    0,
                                    false,
                                ) is None;
                            assert(pos <= q);
                            assert(is_cut_off(s, keyword, pos, p));
                        }
                    }
                    assert(are_texts(s, keyword, pos, at));
                    assert(texts_at(s, at) =~= seq![s.subrange(a, e)] + texts_at(s, rest));
                    assert(candidates(s, keyword, pos) =~= texts_at(s, at));
                },
            }
        },
    }
}

/// Every text of a clipboard that begins with a keyword and goes on to the end of a block is found,
/// unless it stands inside of one that is, up to the first place of the keyword that no closed
/// block follows.
pub proof fn law_texts_are_complete(s: Seq<char>, keyword: Seq<char>)
    ensures
        exists|at: Seq<int>| #[trigger]
            are_texts(s, keyword, 0, at) && candidates(s, keyword, 0) == texts_at(s, at),
{
    lemma_texts(s, keyword, 0);
}

/// Of the texts that were found, all that parse as a block of the kind are blocks, in order, under
/// the names that they have.
pub proof fn law_texts_that_parse_are_blocks(kind: CodeBlockType, v: Seq<Seq<char>>)
    ensures
        is_sieved(
            v,
            named_blocks(kind, v),
            |t: Seq<char>| parsed_name(kind, t) is Some,
            |t: Seq<char>| (parsed_name(kind, t)->0, kind, t),
        ),
    decreases v.len(),
{
    let keep = |t: Seq<char>| parsed_name(kind, t) is Some;
    let give = |t: Seq<char>| (parsed_name(kind, t)->0, kind, t);
    let all = named_blocks(kind, v);
    if v.len() == 0 {
        lemma_sieve_nothing(v, all, keep, give);
    } else {
        let earlier = named_blocks(kind, v.drop_last());
        law_texts_that_parse_are_blocks(kind, v.drop_last());
        if keep(v.last()) {
            assert(all =~= earlier.push(give(v.last())));
        } else {
            assert(all =~= earlier);
        }
        lemma_sieve_more(v, earlier, all, keep, give);
    }
}

/// Every item of the kind and of the name is offered, and no other, in order, with its text and
/// the lines on which it stands.
pub proof fn law_every_item_of_the_name_is_offered(
    path: Seq<char>,
    content: Seq<char>,
    items: Seq<ItemText>,
    kind: ItemKind,
    block_type: CodeBlockType,
    name: Seq<char>,
)
    ensures
        is_sieved(
            items,
            item_matches(path, content, items, kind, block_type, name),
            |x: ItemText| x.kind == kind && x.name == name,
            |x: ItemText|
                MatchText {
                    file_path: path,
                    block_name: name,
                    block_type,
                    old_full_block: x.tokens,
                    head: None,
                    line_range: line_range_of(content, x.tokens, lines(content)),
                    context_label: None,
                },
        ),
    decreases items.len(),
{
    let keep = |x: ItemText| x.kind == kind && x.name == name;
    let give = |x: ItemText|
        MatchText {
            file_path: path,
            block_name: name,
            block_type,
            old_full_block: x.tokens,
            head: None,
            line_range: line_range_of(content, x.tokens, lines(content)),
            context_label: None,
        };
    let all = item_matches(path, content, items, kind, block_type, name);
    if items.len() == 0 {
        lemma_sieve_nothing(items, all, keep, give);
    } else {
        let d = items.drop_last();
        let earlier = item_matches(path, content, d, kind, block_type, name);
        law_every_item_of_the_name_is_offered(path, content, d, kind, block_type, name);
        if keep(items.last()) {
            assert(all =~= earlier.push(give(items.last())));
        } else {
            assert(all =~= earlier);
        }
        lemma_sieve_more(items, earlier, all, keep, give);
    }
}

/// White space aside, a text is its lines that are not blank, trimmed, in order.
pub proof fn law_normalized_lines(v: Seq<Seq<char>>)
    ensures
        is_sieved(
            v,
            normalized(v),
            |l: Seq<char>| trimmed(l).len() > 0,
            |l: Seq<char>| trimmed(l),
        ),
    decreases v.len(),
{
    let keep = |l: Seq<char>| trimmed(l).len() > 0;
    let give = |l: Seq<char>| trimmed(l);
    let all = normalized(v);
    if v.len() == 0 {
        lemma_sieve_nothing(v, all, keep, give);
    } else {
        let earlier = normalized(v.drop_last());
        law_normalized_lines(v.drop_last());
        if keep(v.last()) {
            assert(all =~= earlier.push(give(v.last())));
        } else {
            assert(all =~= earlier);
        }
        lemma_sieve_more(v, earlier, all, keep, give);
    }
}

proof fn lemma_range_end(
    ls: Seq<Seq<char>>,
    target: Seq<Seq<char>>,
    i: int,
    j: int,
    depth: int,
    opened: bool,
)
    requires
        0 <= i <= j,
    ensures
        range_end(ls, target, i, j, depth, opened) matches Some(e) ==> j <= e < ls.len() && normalized(
            ls.subrange(i, e + 1),
        ) == target,
        closing_line(ls, j, depth, opened, false) matches Some(e) ==> normalized(ls.subrange(i, e + 1)) == target
            ==> range_end(ls, target, i, j, depth, opened) == Some(e),
    decreases ls.len() - j,
{
    if j < ls.len() {
        let after = scanned(ls[j], depth, opened);
        lemma_range_end(ls, target, i, j + 1, after.0, after.1);
    }
}

/// Whether `target` stands on the lines from `i` to `j`: they begin with its first two lines, line
/// `j` closes the first block opened there, and white space aside the lines are the target.
pub open spec fn stands_on(ls: Seq<Seq<char>>, target: Seq<Seq<char>>, i: int, j: int) -> bool {
    &&& 0 <= i <= j < ls.len()
    &&& begins_at(ls, target, i)
    &&& closing_line(ls, i, 0, false, false) == Some(j)
    &&& normalized(ls.subrange(i, j + 1)) == target
}

proof fn lemma_first_range(ls: Seq<Seq<char>>, target: Seq<Seq<char>>, i: int)
    requires
        0 <= i,
    ensures
        first_range(ls, target, i) matches Some((a, b)) ==> i < a <= b <= ls.len() && normalized(
            ls.subrange(a - 1, b),
        ) == target,
        forall|k: int, e: int|
            i <= k && #[trigger] stands_on(ls, target, k, e) ==> first_range(ls, target, i) is Some && (
            first_range(ls, target, i)->0).0 <= k + 1,
        forall|e: int| #[trigger] stands_on(ls, target, i, e) ==> first_range(ls, target, i) == Some((i + 1, e + 1)),
    decreases ls.len() - i,
{
    if i < ls.len() {
        lemma_range_end(ls, target, i, i, 0, false);
        lemma_first_range(ls, target, i + 1);
    }
}

/// The lines that are found for a block are the block, white space aside; and where the block
/// stands on some lines, lines are found, none of them behind those.
pub proof fn law_block_is_found_on_its_lines(ls: Seq<Seq<char>>, target: Seq<Seq<char>>)
    ensures
        first_range(ls, target, 0) matches Some((a, b)) ==> 1 <= a <= b <= ls.len() && normalized(
            ls.subrange(a - 1, b),
        ) == target,
        forall|i: int, j: int| #[trigger]
            stands_on(ls, target, i, j) ==> first_range(ls, target, 0) is Some && (first_range(
                ls,
                target,
                0,
            )->0).0 <= i + 1,
{
    lemma_first_range(ls, target, 0);
}

/// A text is exchanged at the place where it stands; what stands before and behind it stays.
pub proof fn law_once_replaced(content: Seq<char>, old_block: Seq<char>, new: Seq<char>)
    ensures
        match once_replaced(content, old_block, new) {
            Some(r) => exists|a: Seq<char>, b: Seq<char>|
                content == #[trigger] (a + old_block + b) && r == a + new + b,
            None => old_block.len() == 0 || count_of(content, old_block) != 1 || !crate::text::occurs(
                content,
                old_block,
            ),
        },
{
    law_found_first(content, old_block, 0);
    match find_from(content, old_block, 0) {
        Some(p) => {
            let a = content.take(p);
            let b = content.skip(p + old_block.len());
            assert(content =~= a + old_block + b);
        },
        None => {
            assert forall|i: int| !occurs_at(content, old_block, i) by {
                if i >= 0 {
                    assert(!occurs_at(content, old_block, i));
                }
            }
        },
    }
}

/// The function that is rebuilt is the first one of the name among the items.
pub proof fn law_first_function(items: Seq<ItemText>, name: Seq<char>, i: int)
    requires
        0 <= i,
    ensures
        match first_function(items, name, i) {
            Some(k) => i <= k < items.len() && items[k].kind == ItemKind::Function && items[k].name == name
                && forall|j: int|
                i <= j < k ==> !((#[trigger] items[j]).kind == ItemKind::Function && items[j].name == name),
            None => forall|j: int|
                i <= j < items.len() ==> !((#[trigger] items[j]).kind == ItemKind::Function && items[j].name
                    == name),
        },
    decreases items.len() - i,
{
    if i < items.len() && !(items[i].kind == ItemKind::Function && items[i].name == name) {
        law_first_function(items, name, i + 1);
    }
}

} // verus!
