//! What stands before the `fn` of a function, and how a function that takes the place of another
//! one keeps it.

use vstd::prelude::*;
use crate::syntax::{FnHead, FnHeadText};
use crate::text::{
    chars_of, contains_text, is_space, is_white, join, joined, line_start, line_start_at, occurs_at,
    push_text, same, slice_at, slice_texts, string_of, texts, trim, trimmed, words, words_of,
};
use crate::unicode::{alphanumeric, ascii_alphanumeric, is_alphanumeric};

verus! {

/// Whether a character is part of an identifier: a letter, a digit or an underscore.
pub open spec fn in_word(c: char) -> bool {
    c == '_' || if (c as u32) < 128 {
        ascii_alphanumeric(c)
    } else {
        alphanumeric(c)
    }
}

/// Whether no identifier runs on into position `p`.
pub open spec fn starts_word(s: Seq<char>, p: int) -> bool {
    p == 0 || !in_word(s[p - 1])
}

/// Whether no identifier runs on behind position `p`.
pub open spec fn ends_word(s: Seq<char>, p: int) -> bool {
    p >= s.len() || !in_word(s[p])
}

pub(crate) fn at_word_start(cs: &[char], p: usize) -> (r: bool)
    requires
        p <= cs@.len(),
    ensures
        r == starts_word(cs@, p as int),
{
    p == 0 || !(is_alphanumeric(cs[p - 1]) || cs[p - 1] == '_')
}

fn at_word_end(cs: &[char], p: usize) -> (r: bool)
    ensures
        r == ends_word(cs@, p as int),
{
    p >= cs.len() || !(is_alphanumeric(cs[p]) || cs[p] == '_')
}

/// Where the white space before `p` begins, that on the same line alone where `same_line` says so.
pub open spec fn blank_start(s: Seq<char>, p: int, same_line: bool) -> int
    decreases p,
{
    if p > 0 && is_space(s[p - 1]) && !(same_line && s[p - 1] == '\n') {
        blank_start(s, p - 1, same_line)
    } else {
        p
    }
}

fn find_blank_start(cs: &[char], p: usize, same_line: bool) -> (r: usize)
    requires
        p <= cs@.len(),
    ensures
        r == blank_start(cs@, p as int, same_line),
        r <= p,
{
    let mut k: usize = p;
    while k > 0 && is_white(cs[k - 1]) && !(same_line && cs[k - 1] == '\n')
        invariant
            k <= p <= cs@.len(),
            blank_start(cs@, k as int, same_line) == blank_start(cs@, p as int, same_line),
        decreases k,
    {
        k -= 1;
    }
    k
}

/// Where the white space from `i` on ends.
pub open spec fn blank_end(s: Seq<char>, i: int) -> int
    decreases s.len() - i,
{
    if 0 <= i < s.len() && is_space(s[i]) {
        blank_end(s, i + 1)
    } else {
        i
    }
}

fn find_blank_end(cs: &[char], i: usize) -> (r: usize)
    ensures
        r == blank_end(cs@, i as int),
        i <= cs@.len() ==> i <= r <= cs@.len(),
{
    let mut k: usize = i;
    while k < cs.len() && is_white(cs[k])
        invariant
            i <= k,
            i <= cs@.len() ==> k <= cs@.len(),
            blank_end(cs@, k as int) == blank_end(cs@, i as int),
        decreases cs@.len() - k,
    {
        k += 1;
    }
    k
}

/// Where the word `w` begins that ends at `e`, if one does.
pub open spec fn word_start(s: Seq<char>, e: int, w: Seq<char>) -> Option<int> {
    if 0 < w.len() <= e && occurs_at(s, w, e - w.len()) && starts_word(s, e - w.len()) {
        Some(e - w.len())
    } else {
        None
    }
}

fn find_word_start(cs: &[char], e: usize, w: &str) -> (r: Option<usize>)
    requires
        e <= cs@.len(),
    ensures
        match r {
            Some(q) => word_start(cs@, e as int, w@) == Some(q as int) && q < e,
            None => word_start(cs@, e as int, w@) is None,
        },
{
    let ws: Vec<char> = chars_of(w);
    let n: usize = ws.len();
    if 0 < n && n <= e && slice_at(cs, &ws, e - n) && at_word_start(cs, e - n) {
        Some(e - n)
    } else {
        None
    }
}

/// The last place before `e` that holds `c`.
pub open spec fn last_before(s: Seq<char>, c: char, e: int) -> Option<int>
    decreases e,
{
    if e <= 0 {
        None
    } else if s[e - 1] == c {
        Some(e - 1)
    } else {
        last_before(s, c, e - 1)
    }
}

fn find_last_before(cs: &[char], c: char, e: usize) -> (r: Option<usize>)
    requires
        e <= cs@.len(),
    ensures
        match r {
            Some(o) => last_before(cs@, c, e as int) == Some(o as int) && o < e,
            None => last_before(cs@, c, e as int) is None,
        },
{
    let mut k: usize = e;
    while k > 0
        invariant
            k <= e <= cs@.len(),
            last_before(cs@, c, k as int) == last_before(cs@, c, e as int),
        decreases k,
    {
        if cs[k - 1] == c {
            return Some(k - 1);
        }
        k -= 1;
    }
    None
}

/// Where the word `w` begins behind which a group from `open` to `close` ends at `e`, if one does.
pub open spec fn group_start(s: Seq<char>, e: int, w: Seq<char>, open: char, close: char) -> Option<
    int,
> {
    if e > 0 && s[e - 1] == close {
        match last_before(s, open, e - 1) {
            Some(o) => word_start(s, blank_start(s, o, true), w),
            None => None,
        }
    } else {
        None
    }
}

fn find_group_start(cs: &[char], e: usize, w: &str, open: char, close: char) -> (r: Option<usize>)
    requires
        e <= cs@.len(),
    ensures
        match r {
            Some(q) => group_start(cs@, e as int, w@, open, close) == Some(q as int) && q < e,
            None => group_start(cs@, e as int, w@, open, close) is None,
        },
{
    if e > 0 && cs[e - 1] == close {
        match find_last_before(cs, open, e - 1) {
            Some(o) => find_word_start(cs, find_blank_start(cs, o, true), w),
            None => None,
        }
    } else {
        None
    }
}

/// The first of two places, where there is one, else the second.
pub open spec fn either(a: Option<int>, b: Option<int>) -> Option<int> {
    if a is Some {
        a
    } else {
        b
    }
}

/// Where the modifier of a function begins that stands before `p` on the same line, if one does.
pub open spec fn modifier_start(s: Seq<char>, p: int) -> Option<int> {
    let e = blank_start(s, p, true);
    either(
        word_start(s, e, "pub"@),
        either(
            word_start(s, e, "async"@),
            either(
                word_start(s, e, "unsafe"@),
                either(
                    word_start(s, e, "const"@),
                    either(
                        word_start(s, e, "default"@),
                        either(
                            word_start(s, e, "extern"@),
                            either(
                                group_start(s, e, "pub"@, '(', ')'),
                                group_start(s, e, "extern"@, '"', '"'),
                            ),
                        ),
                    ),
                ),
            ),
        ),
    )
}

fn find_modifier_start(cs: &[char], p: usize) -> (r: Option<usize>)
    requires
        p <= cs@.len(),
    ensures
        match r {
            Some(q) => modifier_start(cs@, p as int) == Some(q as int) && q < p,
            None => modifier_start(cs@, p as int) is None,
        },
{
    let e: usize = find_blank_start(cs, p, true);
    let found: Option<usize> = find_word_start(cs, e, "pub");
    if found.is_some() {
        return found;
    }
    let found: Option<usize> = find_word_start(cs, e, "async");
    if found.is_some() {
        return found;
    }
    let found: Option<usize> = find_word_start(cs, e, "unsafe");
    if found.is_some() {
        return found;
    }
    let found: Option<usize> = find_word_start(cs, e, "const");
    if found.is_some() {
        return found;
    }
    let found: Option<usize> = find_word_start(cs, e, "default");
    if found.is_some() {
        return found;
    }
    let found: Option<usize> = find_word_start(cs, e, "extern");
    if found.is_some() {
        return found;
    }
    let found: Option<usize> = find_group_start(cs, e, "pub", '(', ')');
    if found.is_some() {
        return found;
    }
    find_group_start(cs, e, "extern", '"', '"')
}

/// Where the modifiers begin that stand before `p` on the same line; `p` itself where there are
/// none.
pub open spec fn row_start(s: Seq<char>, p: int) -> int
    decreases p,
{
    match modifier_start(s, p) {
        Some(q) => if 0 <= q < p {
            row_start(s, q)
        } else {
            p
        },
        None => p,
    }
}

fn find_row_start(cs: &[char], p: usize) -> (r: usize)
    requires
        p <= cs@.len(),
    ensures
        r == row_start(cs@, p as int),
        r <= p,
{
    let mut k: usize = p;
    loop
        invariant
            k <= p <= cs@.len(),
            row_start(cs@, k as int) == row_start(cs@, p as int),
        decreases k,
    {
        match find_modifier_start(cs, k) {
            Some(q) => {
                k = q;
            },
            None => {
                return k;
            },
        }
    }
}

/// Whether nothing but white space stands before `p` on its line.
pub open spec fn is_indent(s: Seq<char>, p: int) -> bool {
    trimmed(s.subrange(line_start(s, p), p)).len() == 0
}

fn indents(cs: &[char], p: usize) -> (r: bool)
    requires
        p <= cs@.len(),
    ensures
        r == is_indent(cs@, p as int),
{
    let l: usize = line_start_at(cs, p);
    trim(string_of(cs, l, p).as_str()).as_str().is_empty()
}

/// Where the modifiers begin that stand before `p`, those on lines of their own before it with
/// them; `p` itself where there are none.
pub open spec fn modifiers_start(s: Seq<char>, p: int) -> int
    decreases p,
{
    let q = row_start(s, p);
    let e = blank_start(s, q, false);
    let earlier = row_start(s, e);
    if 0 <= earlier < e && earlier < p && is_indent(s, q) && is_indent(s, earlier) {
        modifiers_start(s, earlier)
    } else {
        q
    }
}

pub(crate) fn find_modifiers_start(cs: &[char], p: usize) -> (r: usize)
    requires
        p <= cs@.len(),
    ensures
        r == modifiers_start(cs@, p as int),
        r <= p,
{
    let mut k: usize = p;
    loop
        invariant
            k <= p <= cs@.len(),
            modifiers_start(cs@, k as int) == modifiers_start(cs@, p as int),
        decreases k,
    {
        let q: usize = find_row_start(cs, k);
        let e: usize = find_blank_start(cs, q, false);
        let earlier: usize = find_row_start(cs, e);
        if earlier < e && indents(cs, q) && indents(cs, earlier) {
            k = earlier;
        } else {
            return q;
        }
    }
}

/// Whether a function `name` is declared by the `fn` at `p`.
pub open spec fn declares(s: Seq<char>, p: int, name: Seq<char>) -> bool {
    let a = blank_end(s, p + 2);
    &&& p + 2 < a
    &&& s[p] == 'f'
    &&& s[p + 1] == 'n'
    &&& starts_word(s, p)
    &&& occurs_at(s, name, a)
    &&& ends_word(s, a + name.len())
}

fn is_declared(cs: &[char], p: usize, name: &[char]) -> (r: bool)
    requires
        p < cs@.len(),
    ensures
        r == declares(cs@, p as int, name@),
        r ==> p + 2 <= cs@.len(),
{
    if cs.len() - p < 2 {
        return false;
    }
    let a: usize = find_blank_end(cs, p + 2);
    if !(p + 2 < a && cs[p] == 'f' && cs[p + 1] == 'n' && at_word_start(cs, p)) {
        return false;
    }
    if name.len() > cs.len() - a || !slice_at(cs, name, a) {
        return false;
    }
    at_word_end(cs, a + name.len())
}

/// Whether nothing but attributes stands before `q` on its line.
pub open spec fn opens_line(s: Seq<char>, q: int) -> bool {
    let t = trimmed(s.subrange(line_start(s, q), q));
    t.len() == 0 || t.last() == ']'
}

fn is_line_open(cs: &[char], q: usize) -> (r: bool)
    requires
        q <= cs@.len(),
    ensures
        r == opens_line(cs@, q as int),
{
    let l: usize = line_start_at(cs, q);
    let t: Vec<char> = chars_of(trim(string_of(cs, l, q).as_str()).as_str());
    t.len() == 0 || t[t.len() - 1] == ']'
}

/// The first `fn` from `i` on that declares a function `name`, with nothing but attributes before
/// its modifiers on their line.
pub open spec fn declaration(s: Seq<char>, name: Seq<char>, i: int) -> Option<int>
    decreases s.len() - i,
{
    if i >= s.len() {
        None
    } else if declares(s, i, name) && opens_line(s, modifiers_start(s, i)) {
        Some(i)
    } else {
        declaration(s, name, i + 1)
    }
}

fn find_declaration(cs: &[char], name: &[char]) -> (r: Option<usize>)
    ensures
        match r {
            Some(p) => declaration(cs@, name@, 0) == Some(p as int) && p < cs@.len(),
            None => declaration(cs@, name@, 0) is None,
        },
{
    let mut i: usize = 0;
    while i < cs.len()
        invariant
            i <= cs@.len(),
            declaration(cs@, name@, i as int) == declaration(cs@, name@, 0),
        decreases cs@.len() - i,
    {
        if is_declared(cs, i, name) && is_line_open(cs, find_modifiers_start(cs, i)) {
            return Some(i);
        }
        i += 1;
    }
    None
}

/// The length of the visibility with which modifiers begin; zero where they begin with none.
pub open spec fn visibility_len(m: Seq<char>) -> int {
    if word_start(m, 3, "pub"@) == Some(0int) && ends_word(m, 3) {
        let o = blank_end(m, 3);
        if o < m.len() && m[o] == '(' {
            match last_before(m, ')', m.len() as int) {
                Some(c) => c + 1,
                None => 3,
            }
        } else {
            3
        }
    } else {
        0
    }
}

fn count_visibility(cs: &[char]) -> (r: usize)
    ensures
        r == visibility_len(cs@),
        r <= cs@.len(),
{
    if cs.len() < 3 {
        proof {
            assert(word_start(cs@, 3, "pub"@) != Some(0int)) by {
                reveal_strlit("pub");
            }
        }
        return 0;
    }
    match find_word_start(cs, 3, "pub") {
        Some(q) => {
            if q != 0 || !at_word_end(cs, 3) {
                return 0;
            }
        },
        None => {
            return 0;
        },
    }
    let o: usize = find_blank_end(cs, 3);
    if o < cs.len() && cs[o] == '(' {
        match find_last_before(cs, ')', cs.len()) {
            Some(c) => c + 1,
            None => 3,
        }
    } else {
        3
    }
}

/// A text without its white space.
pub open spec fn squeezed(s: Seq<char>) -> Seq<char> {
    joined(words(s), ""@)
}

fn squeeze(s: &str) -> (r: String)
    ensures
        r@ == squeezed(s@),
{
    join(&words_of(s), "")
}

/// The words from the first `extern` on.
pub open spec fn from_extern(ws: Seq<Seq<char>>) -> Seq<Seq<char>>
    decreases ws.len(),
{
    if ws.len() == 0 || ws[0] == "extern"@ {
        ws
    } else {
        from_extern(ws.drop_first())
    }
}

fn find_extern(ws: &[String]) -> (r: usize)
    ensures
        r <= ws@.len(),
        texts(ws@).skip(r as int) == from_extern(texts(ws@)),
{
    let ghost all = texts(ws@);
    let mut i: usize = 0;
    assert(all.skip(0) =~= all);
    while i < ws.len()
        invariant
            i <= ws@.len(),
            from_extern(all.skip(i as int)) == from_extern(all),
        decreases ws@.len() - i,
    {
        assert(all.skip(i as int)[0] == ws@[i as int]@);
        if same(ws[i].as_str(), "extern") {
            return i;
        }
        assert(all.skip(i as int).drop_first() =~= all.skip(i + 1));
        i += 1;
    }
    assert(all.skip(i as int) =~= Seq::empty());
    i
}

/// A word, or none.
pub open spec fn word_if(on: bool, word: Seq<char>) -> Seq<Seq<char>> {
    if on {
        seq![word]
    } else {
        Seq::empty()
    }
}

/// The modifiers of a function that was declared with `modifiers` and takes the place of one with
/// the head `old_head`: the visibility of the old one, as the new one spells it where it is the
/// same; `async` and `unsafe` where either has them; and what else the new one has. A function
/// that is `async` is not `const`.
pub open spec fn kept_modifiers(old_head: FnHeadText, modifiers: Seq<char>) -> Seq<Seq<char>> {
    let n = visibility_len(modifiers);
    let own = modifiers.take(n);
    let ws = words(modifiers.skip(n));
    let vis = if squeezed(own) == squeezed(old_head.vis) {
        own
    } else {
        old_head.vis
    };
    let is_async = old_head.is_async || ws.contains("async"@);
    let is_unsafe = old_head.is_unsafe || ws.contains("unsafe"@);
    word_if(vis.len() > 0, vis) + word_if(ws.contains("default"@), "default"@) + word_if(
        ws.contains("const"@) && !is_async,
        "const"@,
    ) + word_if(is_async, "async"@) + word_if(is_unsafe, "unsafe"@) + from_extern(ws)
}

fn put_word(v: &mut Vec<String>, on: bool, word: &str)
    ensures
        texts(final(v)@) == texts(old(v)@) + word_if(on, word@),
{
    if on {
        push_text(v, word);
    }
    assert(texts(v@) =~= texts(old(v)@) + word_if(on, word@));
}

fn keep_modifiers(old_head: &FnHead, modifiers: &[char]) -> (r: Vec<String>)
    ensures
        texts(r@) == kept_modifiers(old_head@, modifiers@),
{
    let n: usize = count_visibility(modifiers);
    let own: String = string_of(modifiers, 0, n);
    assert(own@ =~= modifiers@.take(n as int));
    let rest: String = string_of(modifiers, n, modifiers.len());
    assert(rest@ =~= modifiers@.skip(n as int));
    let ws: Vec<String> = words_of(rest.as_str());
    let vis: &str = if same(squeeze(own.as_str()).as_str(), squeeze(old_head.vis.as_str()).as_str()) {
        own.as_str()
    } else {
        old_head.vis.as_str()
    };
    let is_async: bool = old_head.is_async || contains_text(&ws, "async");
    let is_unsafe: bool = old_head.is_unsafe || contains_text(&ws, "unsafe");
    let mut out: Vec<String> = Vec::new();
    put_word(&mut out, !vis.is_empty(), vis);
    put_word(&mut out, contains_text(&ws, "default"), "default");
    put_word(&mut out, contains_text(&ws, "const") && !is_async, "const");
    put_word(&mut out, is_async, "async");
    put_word(&mut out, is_unsafe, "unsafe");
    let ghost before = texts(out@);
    let from: usize = find_extern(&ws);
    let mut abi: Vec<String> = slice_texts(&ws, from, ws.len());
    assert(texts(abi@) =~= from_extern(texts(ws@)));
    out.append(&mut abi);
    assert(texts(out@) =~= before + from_extern(texts(ws@)));
    assert(texts(out@) =~= kept_modifiers(old_head@, modifiers@));
    out
}

/// Words with a blank behind each.
pub open spec fn spaced(ws: Seq<Seq<char>>) -> Seq<char> {
    if ws.len() == 0 {
        Seq::empty()
    } else {
        joined(ws, " "@) + " "@
    }
}

/// The function `name` as it takes the place of one with the head `old_head`: what is written
/// before its modifiers, the modifiers that are kept, and it from its `fn` on. The text itself
/// where it declares no such function.
pub open spec fn kept_head(new: Seq<char>, name: Seq<char>, old_head: FnHeadText) -> Seq<char> {
    match declaration(new, name, 0) {
        Some(p) => {
            let q = modifiers_start(new, p);
            new.take(q) + spaced(kept_modifiers(old_head, new.subrange(q, p))) + new.skip(p)
        },
        None => new,
    }
}

/// The function `name` as it takes the place of one with the head `old_head`.
pub fn keep_head(new: &str, name: &str, old_head: &FnHead) -> (r: String)
    ensures
        r@ == kept_head(new@, name@, old_head@),
{
    let cs: Vec<char> = chars_of(new);
    let ns: Vec<char> = chars_of(name);
    match find_declaration(&cs, &ns) {
        Some(p) => {
            let q: usize = find_modifiers_start(&cs, p);
            let modifiers: Vec<char> = chars_of(string_of(&cs, q, p).as_str());
            assert(modifiers@ =~= new@.subrange(q as int, p as int));
            let ws: Vec<String> = keep_modifiers(old_head, &modifiers);
            assert(texts(ws@).len() == ws@.len());
            let mut out: String = string_of(&cs, 0, q);
            assert(out@ =~= new@.take(q as int));
            let mut lead: String = String::new();
            if ws.len() > 0 {
                lead = join(&ws, " ");
                lead.append(" ");
            }
            out.append(lead.as_str());
            let tail: String = string_of(&cs, p, cs.len());
            assert(tail@ =~= new@.skip(p as int));
            out.append(tail.as_str());
            out
        },
        None => new.to_owned(),
    }
}

/// A function that takes the place of another one keeps the old one's visibility, and its `async`
/// and `unsafe` where it had them; what is written before its modifiers and from its `fn` on stays
/// as it is.
pub proof fn law_head_is_kept(new: Seq<char>, name: Seq<char>, old_head: FnHeadText, p: int)
    requires
        declaration(new, name, 0) == Some(p),
    ensures
        ({
            let q = modifiers_start(new, p);
            let kept = kept_modifiers(old_head, new.subrange(q, p));
            &&& kept_head(new, name, old_head) == new.take(q) + spaced(kept) + new.skip(p)
            &&& old_head.vis.len() > 0 && squeezed(old_head.vis).len() > 0 ==> kept.len() > 0
                && squeezed(kept[0]) == squeezed(old_head.vis)
            &&& old_head.is_async ==> kept.contains("async"@)
            &&& old_head.is_unsafe ==> kept.contains("unsafe"@)
        }),
{
    let q = modifiers_start(new, p);
    let modifiers = new.subrange(q, p);
    let n = visibility_len(modifiers);
    let own = modifiers.take(n);
    let ws = words(modifiers.skip(n));
    let kept = kept_modifiers(old_head, modifiers);
    let vis = if squeezed(own) == squeezed(old_head.vis) {
        own
    } else {
        old_head.vis
    };
    let is_async = old_head.is_async || ws.contains("async"@);
    let is_unsafe = old_head.is_unsafe || ws.contains("unsafe"@);
    let a = word_if(vis.len() > 0, vis) + word_if(ws.contains("default"@), "default"@) + word_if(
        ws.contains("const"@) && !is_async,
        "const"@,
    );
    if old_head.is_async {
        assert(kept[a.len() as int] == "async"@);
    }
    if old_head.is_unsafe {
        assert(kept[(a + word_if(is_async, "async"@)).len() as int] == "unsafe"@);
    }
    if squeezed(old_head.vis).len() > 0 {
        if vis.len() == 0 {
            assert(own =~= Seq::empty());
            assert(words(own) =~= Seq::empty());
            assert(squeezed(own).len() == 0);
        }
        assert(kept[0] == vis);
    }
}

} // verus!
