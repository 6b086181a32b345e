//! What code blocks are found in a file, said of its lines.

use vstd::prelude::*;
use crate::braces::{closing_line, scanned};
use crate::braces_laws::{closes_on, law_closing_line, law_halting_search, open_before, surplus};
use crate::text::{
    dec, joined, lemma_split_joined, lines, number, occurs, padded_left, split, trimmed, without_char,
};
use crate::unicode::alphanumeric;
use crate::wff::{
    attributes_end, attributes_start, block_last, blocks_from, function_at, impl_at, is_attribute,
    law_blocks_lie_within, leading_ident, may_be_struct, methods_from, numbered_from, struct_at, BlockText,
    CodeBlockType,
};

verus! {

/// The identifier with which a text begins is all of its letters, digits and underscores up to the
/// first other character.
pub proof fn law_leading_ident(s: Seq<char>)
    ensures
        ({
            let n = leading_ident(s).len() as int;
            &&& n <= s.len()
            &&& leading_ident(s) == s.take(n)
            &&& forall|i: int| 0 <= i < n ==> alphanumeric(#[trigger] s[i]) || s[i] == '_'
            &&& n < s.len() ==> !alphanumeric(s[n]) && s[n] != '_'
        }),
    decreases s.len(),
{
    if s.len() > 0 && (alphanumeric(s[0]) || s[0] == '_') {
        let t = s.drop_first();
        law_leading_ident(t);
        let n = leading_ident(s).len() as int;
        assert(leading_ident(s) =~= s.take(n));
        assert forall|i: int| 0 <= i < n implies alphanumeric(#[trigger] s[i]) || s[i] == '_' by {
            if i > 0 {
                assert(t[i - 1] == s[i]);
            }
        }
        if n < s.len() {
            assert(t[n - 1] == s[n]);
        }
    } else {
        assert(leading_ident(s) =~= s.take(0));
    }
}

/// The attributes right before a line, and no others, belong to what it declares; behind them
/// stands the first line that is none.
pub proof fn law_attributes_belong_to_the_block(ls: Seq<Seq<char>>, i: int)
    requires
        0 <= i <= ls.len(),
    ensures
        0 <= attributes_start(ls, i) <= i,
        forall|k: int| attributes_start(ls, i) <= k < i ==> is_attribute(#[trigger] ls[k]),
        attributes_start(ls, i) > 0 ==> !is_attribute(ls[attributes_start(ls, i) - 1]),
        i <= attributes_end(ls, i) <= ls.len(),
        forall|k: int| i <= k < attributes_end(ls, i) ==> is_attribute(#[trigger] ls[k]),
        attributes_end(ls, i) < ls.len() ==> !is_attribute(ls[attributes_end(ls, i)]),
    decreases i, ls.len() - i,
{
    lemma_attributes_start(ls, i);
    lemma_attributes_end(ls, i);
}

proof fn lemma_attributes_start(ls: Seq<Seq<char>>, i: int)
    requires
        0 <= i <= ls.len(),
    ensures
        0 <= attributes_start(ls, i) <= i,
        forall|k: int| attributes_start(ls, i) <= k < i ==> is_attribute(#[trigger] ls[k]),
        attributes_start(ls, i) > 0 ==> !is_attribute(ls[attributes_start(ls, i) - 1]),
    decreases i,
{
    if i > 0 && is_attribute(ls[i - 1]) {
        lemma_attributes_start(ls, i - 1);
    }
}

proof fn lemma_attributes_end(ls: Seq<Seq<char>>, i: int)
    requires
        0 <= i <= ls.len(),
    ensures
        i <= attributes_end(ls, i) <= ls.len(),
        forall|k: int| i <= k < attributes_end(ls, i) ==> is_attribute(#[trigger] ls[k]),
        attributes_end(ls, i) < ls.len() ==> !is_attribute(ls[attributes_end(ls, i)]),
    decreases ls.len() - i,
{
    if i < ls.len() && is_attribute(ls[i]) {
        lemma_attributes_end(ls, i + 1);
    }
}

/// Whether a block is what one of the ways to find blocks gives on its first line: a function, an
/// `impl` block, or a struct with its attributes.
pub open spec fn is_block_of(ls: Seq<Seq<char>>, b: BlockText) -> bool {
    match b.block_type {
        CodeBlockType::Function => function_at(ls, b.start_line - 1) == Some(b),
        CodeBlockType::Impl => impl_at(ls, b.start_line - 1) == Some(b),
        CodeBlockType::Struct => struct_at(ls, b.start_line - 1) == Some(b),
    }
}

/// Whether line `i`, counted from zero, lies in one of the blocks.
#[verifier::opaque]
pub open spec fn is_shown(bs: Seq<BlockText>, i: int) -> bool {
    exists|k: int| 0 <= k < bs.len() && (#[trigger] bs[k]).start_line <= i + 1 <= bs[k].end_line
}

/// Whether line `i` lies in one of the blocks that are functions.
#[verifier::opaque]
pub open spec fn is_shown_as_function(bs: Seq<BlockText>, i: int) -> bool {
    exists|k: int|
        0 <= k < bs.len() && (#[trigger] bs[k]).start_line <= i + 1 <= bs[k].end_line && bs[k].block_type
            == CodeBlockType::Function
}

proof fn lemma_shown_join(a: Seq<BlockText>, b: Seq<BlockText>, i: int)
    ensures
        is_shown(a, i) || is_shown(b, i) ==> is_shown(a + b, i),
        is_shown_as_function(a, i) || is_shown_as_function(b, i) ==> is_shown_as_function(a + b, i),
{
    reveal(is_shown);
    reveal(is_shown_as_function);
    let all = a + b;
    if is_shown(a, i) {
        let k = choose|k: int| 0 <= k < a.len() && (#[trigger] a[k]).start_line <= i + 1 <= a[k].end_line;
        assert(all[k] == a[k]);
    } else if is_shown(b, i) {
        let k = choose|k: int| 0 <= k < b.len() && (#[trigger] b[k]).start_line <= i + 1 <= b[k].end_line;
        assert(all[a.len() + k] == b[k]);
    }
    if is_shown_as_function(a, i) {
        let k = choose|k: int|
            0 <= k < a.len() && (#[trigger] a[k]).start_line <= i + 1 <= a[k].end_line && a[k].block_type
                == CodeBlockType::Function;
        assert(all[k] == a[k]);
    } else if is_shown_as_function(b, i) {
        let k = choose|k: int|
            0 <= k < b.len() && (#[trigger] b[k]).start_line <= i + 1 <= b[k].end_line && b[k].block_type
                == CodeBlockType::Function;
        assert(all[a.len() + k] == b[k]);
    }
}

proof fn lemma_shown_one(b: BlockText, i: int)
    requires
        b.start_line <= i + 1 <= b.end_line,
    ensures
        is_shown(seq![b], i),
        b.block_type == CodeBlockType::Function ==> is_shown_as_function(seq![b], i),
{
    reveal(is_shown);
    reveal(is_shown_as_function);
    assert(seq![b][0] == b);
}

/// Whether line `i` declares a function with a body, and is no comment.
pub open spec fn declares_function(ls: Seq<Seq<char>>, i: int) -> bool {
    !"//"@.is_prefix_of(trimmed(ls[i])) && occurs(trimmed(ls[i]), "fn "@) && function_at(ls, i) is Some
}

proof fn lemma_methods(ls: Seq<Seq<char>>, j: int, end: int)
    requires
        0 <= j,
        end <= ls.len(),
    ensures
        ({
            let ms = methods_from(ls, j, end);
            &&& forall|i: int|
                j <= i < end && #[trigger] declares_function(ls, i) && function_at(ls, i)->0.end_line <= end
                    ==> is_shown_as_function(ms, i)
            &&& forall|k: int|
                0 <= k < ms.len() ==> is_block_of(ls, #[trigger] ms[k]) && ms[k].block_type
                    == CodeBlockType::Function
        }),
    decreases end - j,
{
    if j < end {
        let ms = methods_from(ls, j, end);
        if declares_function(ls, j) && function_at(ls, j)->0.end_line <= end {
            let f = function_at(ls, j)->0;
            law_block_last(ls, j);
            let rest = methods_from(ls, f.end_line, end);
            lemma_methods(ls, f.end_line, end);
            assert(ms == seq![f] + rest);
            assert forall|i: int|
                j <= i < end && #[trigger] declares_function(ls, i) && function_at(ls, i)->0.end_line
                    <= end implies is_shown_as_function(ms, i) by {
                if i < f.end_line {
                    lemma_shown_one(f, i);
                }
                lemma_shown_join(seq![f], rest, i);
            }
            assert forall|k: int| 0 <= k < ms.len() implies is_block_of(ls, #[trigger] ms[k])
                && ms[k].block_type == CodeBlockType::Function by {
                if k > 0 {
                    assert(ms[k] == rest[k - 1]);
                }
            }
        } else {
            lemma_methods(ls, j + 1, end);
        }
    }
}

/// Every method of an `impl` block that ends within it is found, unless it stands inside of one
/// that is: the line that declares it lies in a function that is found.
pub proof fn law_every_method_is_found(ls: Seq<Seq<char>>, j: int, end: int)
    requires
        0 <= j,
        end <= ls.len(),
    ensures
        ({
            let ms = methods_from(ls, j, end);
            &&& forall|i: int|
                j <= i < end && #[trigger] declares_function(ls, i) && function_at(ls, i)->0.end_line <= end
                    ==> is_shown_as_function(ms, i)
            &&& forall|k: int|
                0 <= k < ms.len() ==> is_block_of(ls, #[trigger] ms[k]) && ms[k].block_type
                    == CodeBlockType::Function
        }),
{
    lemma_methods(ls, j, end);
}

/// Whether line `i` begins a block and is no comment: it declares a struct, an `impl` block with a
/// body, or a function with one.
pub open spec fn begins_block(ls: Seq<Seq<char>>, i: int) -> bool {
    let t = trimmed(ls[i]);
    !"//"@.is_prefix_of(t) && ((occurs(t, "struct "@) && !occurs(t, "fn "@) && struct_at(
        ls,
        attributes_start(ls, i),
    ) is Some) || impl_at(ls, i) is Some || (occurs(ls[i], "fn "@) && function_at(ls, i) is Some))
}

proof fn lemma_blocks(ls: Seq<Seq<char>>, i: int)
    requires
        0 <= i,
    ensures
        ({
            let bs = blocks_from(ls, i);
            &&& forall|j: int| i <= j < ls.len() && #[trigger] begins_block(ls, j) ==> is_shown(bs, j)
            &&& forall|k: int| 0 <= k < bs.len() ==> is_block_of(ls, #[trigger] bs[k])
        }),
    decreases ls.len() - i,
{
    if i < ls.len() {
        let bs = blocks_from(ls, i);
        let t = trimmed(ls[i]);
        law_blocks_lie_within(ls, i);
        lemma_attributes_start(ls, i);
        let s = struct_at(ls, attributes_start(ls, i));
        if "//"@.is_prefix_of(t) {
            lemma_blocks(ls, i + 1);
            assert(!begins_block(ls, i));
            assert(bs == blocks_from(ls, i + 1));
        } else if may_be_struct(t) && s is Some {
            let b = s->0;
            lemma_struct(ls, i);
            lemma_blocks(ls, b.end_line);
            lemma_first_block(ls, i, b, seq![b], blocks_from(ls, b.end_line));
            assert(bs == seq![b] + blocks_from(ls, b.end_line));
        } else if impl_at(ls, i) is Some {
            let b = impl_at(ls, i)->0;
            law_block_last(ls, i);
            let ms = methods_from(ls, i + 1, b.end_line);
            lemma_methods(ls, i + 1, b.end_line);
            lemma_blocks(ls, b.end_line);
            let first = seq![b] + ms;
            assert forall|k: int| 0 <= k < first.len() implies is_block_of(ls, #[trigger] first[k]) by {
                if k > 0 {
                    assert(first[k] == ms[k - 1]);
                }
            }
            lemma_first_block(ls, i, b, first, blocks_from(ls, b.end_line));
            assert(bs == first + blocks_from(ls, b.end_line));
        } else if occurs(ls[i], "fn "@) && function_at(ls, i) is Some {
            let b = function_at(ls, i)->0;
            law_block_last(ls, i);
            lemma_blocks(ls, b.end_line);
            lemma_first_block(ls, i, b, seq![b], blocks_from(ls, b.end_line));
            assert(bs == seq![b] + blocks_from(ls, b.end_line));
        } else {
            lemma_blocks(ls, i + 1);
            assert(!begins_block(ls, i));
            assert(bs == blocks_from(ls, i + 1));
        }
    }
}

proof fn lemma_first_block(ls: Seq<Seq<char>>, i: int, b: BlockText, first: Seq<BlockText>, rest: Seq<BlockText>)
    requires
        0 <= i < ls.len(),
        b.start_line <= i + 1 <= b.end_line,
        first.len() > 0,
        first[0] == b,
        forall|k: int| 0 <= k < first.len() ==> is_block_of(ls, #[trigger] first[k]),
        forall|k: int| 0 <= k < rest.len() ==> is_block_of(ls, #[trigger] rest[k]),
        forall|j: int| b.end_line <= j < ls.len() && #[trigger] begins_block(ls, j) ==> is_shown(rest, j),
    ensures
        forall|j: int| i <= j < ls.len() && #[trigger] begins_block(ls, j) ==> is_shown(first + rest, j),
        forall|k: int| 0 <= k < (first + rest).len() ==> is_block_of(ls, #[trigger] (first + rest)[k]),
{
    let all = first + rest;
    assert forall|j: int| i <= j < ls.len() && #[trigger] begins_block(ls, j) implies is_shown(all, j) by {
        if j < b.end_line {
            lemma_shown_one(b, j);
            assert(first =~= seq![b] + first.drop_first());
            lemma_shown_join(seq![b], first.drop_first(), j);
        }
        lemma_shown_join(first, rest, j);
    }
    assert forall|k: int| 0 <= k < all.len() implies is_block_of(ls, #[trigger] all[k]) by {
        if k < first.len() {
            assert(all[k] == first[k]);
        } else {
            assert(all[k] == rest[k - first.len()]);
        }
    }
}

proof fn lemma_struct(ls: Seq<Seq<char>>, i: int)
    requires
        0 <= i < ls.len(),
        may_be_struct(trimmed(ls[i])),
        struct_at(ls, attributes_start(ls, i)) is Some,
    ensures
        ({
            let b = struct_at(ls, attributes_start(ls, i))->0;
            &&& b.start_line <= i + 1 <= b.end_line <= ls.len()
            &&& b.block_type == CodeBlockType::Struct
            &&& b.start_line - 1 == attributes_start(ls, i)
        }),
{
    lemma_attributes_start(ls, i);
    let a = attributes_start(ls, i);
    lemma_attributes_end(ls, a);
    let s = attributes_end(ls, a);
    if s < i {
        assert(is_attribute(ls[s]));
    }
    law_block_last(ls, s);
    assert(s >= i);
}

/// Every block of a file is found: each line that begins one lies in a block that is found. And
/// what is found is a block that begins on its first line.
pub proof fn law_every_block_is_found(ls: Seq<Seq<char>>)
    ensures
        ({
            let bs = blocks_from(ls, 0);
            &&& forall|j: int| 0 <= j < ls.len() && #[trigger] begins_block(ls, j) ==> is_shown(bs, j)
            &&& forall|k: int| 0 <= k < bs.len() ==> is_block_of(ls, #[trigger] bs[k])
        }),
{
    lemma_blocks(ls, 0);
}

/// Whether no more braces are closed than opened anywhere on the lines from `i` on.
pub open spec fn is_nested(ls: Seq<Seq<char>>, i: int) -> bool {
    forall|k: int, c: int|
        i <= k < ls.len() && 0 <= c <= ls[k].len() ==> open_before(ls, i, k) + #[trigger] surplus(
            ls[k].take(c),
            '{',
            '}',
        ) >= 0
}

proof fn lemma_scan_nested(line: Seq<char>, depth: int, opened: bool)
    requires
        depth >= 0,
        opened ==> depth > 0,
        forall|c: int| 0 <= c <= line.len() ==> depth + #[trigger] surplus(line.take(c), '{', '}') >= 0,
    ensures
        ({
            let r = scanned(line, depth, opened);
            !r.2 ==> (r.1 ==> r.0 > 0) && r.0 >= 0 && r.0 == depth + surplus(line, '{', '}')
        }),
    decreases line.len(),
{
    if line.len() > 0 {
        let x = line[0];
        let t = line.drop_first();
        let d = depth + if x == '{' {
            1int
        } else if x == '}' {
            -1int
        } else {
            0int
        };
        assert(line.take(1) =~= seq![x]);
        assert(seq![x].drop_first() =~= Seq::<char>::empty());
        assert(surplus(Seq::<char>::empty(), '{', '}') == 0);
        assert(depth + surplus(line.take(1), '{', '}') >= 0);
        assert forall|c: int| 0 <= c <= t.len() implies d + #[trigger] surplus(t.take(c), '{', '}') >= 0 by {
            assert(depth + surplus(line.take(c + 1), '{', '}') >= 0);
            assert(line.take(c + 1) =~= seq![x] + t.take(c));
            crate::braces_laws::lemma_surplus_join(seq![x], t.take(c), '{', '}');
        }
        if !(x == '}' && opened && depth == 1) {
            lemma_scan_nested(t, d, opened || x == '{');
        }
    }
}

proof fn lemma_halt_nested(ls: Seq<Seq<char>>, i: int, j: int, opened: bool)
    requires
        0 <= i <= j,
        is_nested(ls, i),
        open_before(ls, i, j) >= 0,
        opened ==> open_before(ls, i, j) > 0,
    ensures
        closing_line(ls, j, open_before(ls, i, j), opened, true) == closing_line(
            ls,
            j,
            open_before(ls, i, j),
            opened,
            false,
        ),
    decreases ls.len() - j,
{
    if j < ls.len() {
        let depth = open_before(ls, i, j);
        assert forall|c: int| 0 <= c <= ls[j].len() implies depth + #[trigger] surplus(
            ls[j].take(c),
            '{',
            '}',
        ) >= 0 by {}
        lemma_scan_nested(ls[j], depth, opened);
        let after = scanned(ls[j], depth, opened);
        if !after.2 {
            lemma_open_step(ls, i, j);
            lemma_halt_nested(ls, i, j + 1, after.1);
        }
    }
}

proof fn lemma_open_step(ls: Seq<Seq<char>>, i: int, j: int)
    requires
        i <= j,
    ensures
        open_before(ls, i, j + 1) == open_before(ls, i, j) + surplus(ls[j], '{', '}'),
    decreases j - i,
{
    if i < j {
        lemma_open_step(ls, i + 1, j);
    } else {
        assert(open_before(ls, j + 1, j + 1) == 0);
        assert(open_before(ls, i, i) == 0);
    }
}

/// A block ends on the line with the first brace that closes what is opened from its first line
/// on, at the latest on the last line of the text; on its first line where no such line is found.
/// Where braces are nested as they should be, such a line is found if there is one.
pub proof fn law_block_last(ls: Seq<Seq<char>>, i: int)
    requires
        0 <= i < ls.len(),
    ensures
        i < block_last(ls, i) <= ls.len(),
        ends_rightly(ls, i, block_last(ls, i) - 1),
{
    crate::braces::lemma_closing_line(ls, i, 0, false, true);
    law_halting_search(ls, i);
    law_closing_line(ls, i);
    let e = block_last(ls, i) - 1;
    match closing_line(ls, i, 0, false, true) {
        Some(j) => {
            assert(e == j);
            let c = choose|c: int| #[trigger] closes_on(ls, i, j, c);
            assert(closes_on(ls, i, e, c));
            assert forall|j: int, c: int| #[trigger] closes_on(ls, i, j, c) implies e <= j by {}
        },
        None => {
            if is_nested(ls, i) {
                assert(open_before(ls, i, i) == 0);
                lemma_halt_nested(ls, i, i, false);
                assert forall|j: int, c: int| !#[trigger] closes_on(ls, i, j, c) by {}
            }
        },
    }
}

/// Whether line `e` holds the first brace that closes what is opened from line `i` on; or is line
/// `i`, and there is no such brace or the braces are not nested.
pub open spec fn ends_rightly(ls: Seq<Seq<char>>, i: int, e: int) -> bool {
    ||| (exists|c: int| #[trigger] closes_on(ls, i, e, c)) && forall|j: int, c: int| #[trigger]
        closes_on(ls, i, j, c) ==> e <= j
    ||| e == i && (!is_nested(ls, i) || forall|j: int, c: int| !#[trigger] closes_on(ls, i, j, c))
}

/// The body of a block is its lines, from the first to the last.
pub proof fn law_block_has_its_lines(ls: Seq<Seq<char>>, b: BlockText)
    requires
        without_char(ls, '\n'),
        is_block_of(ls, b),
        1 <= b.start_line <= b.end_line <= ls.len(),
    ensures
        split(b.body, '\n') == ls.subrange(b.start_line - 1, b.end_line),
{
    let part = ls.subrange(b.start_line - 1, b.end_line);
    assert(b.body == joined(part, "\n"@));
    assert forall|i: int, j: int| 0 <= i < part.len() && 0 <= j < part[i].len() implies #[trigger] part[i][j]
        != '\n' by {
        assert(part[i] == ls[b.start_line - 1 + i]);
    }
    reveal_strlit("\n");
    assert("\n"@ =~= seq!['\n']);
    lemma_split_joined(part, '\n');
}

/// Numbered lines are as many as the lines, each ends with its line, and begins with its number
/// but for the blanks before it.
pub proof fn law_numbered_lines(ls: Seq<Seq<char>>, start: int, width: nat, i: int)
    requires
        0 <= i < ls.len(),
        0 <= start,
    ensures
        ({
            let rows = numbered_from(ls, start, width);
            let n = dec((start + i) as nat);
            &&& rows.len() == ls.len()
            &&& ls[i].is_suffix_of(rows[i])
            &&& rows[i] == padded_left(n, width) + "  "@ + ls[i]
            &&& n.is_suffix_of(rows[i].take(rows[i].len() - ls[i].len() - 2))
        }),
{
    reveal_strlit("  ");
    let rows = numbered_from(ls, start, width);
    let n = dec((start + i) as nat);
    let row = rows[i];
    assert(ls[i] =~= row.subrange(row.len() - ls[i].len(), row.len() as int));
    let head = row.take(row.len() - ls[i].len() - 2);
    assert(head =~= padded_left(n, width));
    assert(n =~= head.subrange(head.len() - n.len(), head.len() as int));
}

} // verus!
