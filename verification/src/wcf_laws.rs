//! What is found and replaced in a source file, said of its text.

use vstd::prelude::*;
use crate::braces_laws::{lemma_surplus_join, surplus};
use crate::sieve::{is_sieved, lemma_sieve_more, lemma_sieve_nothing};
use crate::syntax::{fn_head, method_head};
use crate::text::{find_from, occurs_at};
use crate::text_laws::law_found_first;
use crate::wcf::CodeBlockType;
use crate::wcf_functions::{
    body_close, body_open, function_end, function_spans, span_at, span_match, span_matches, SpanText,
};
use crate::wcf_heads::{
    blank_start, in_word, modifier_start, modifiers_start, row_start, starts_word, word_start,
};

verus! {

/// Whether no parenthesis and no bracket is open from `p` up to `q`.
pub open spec fn is_level(s: Seq<char>, p: int, q: int) -> bool {
    surplus(s.subrange(p, q), '(', ')') == 0 && surplus(s.subrange(p, q), '[', ']') == 0
}

/// Whether a brace or a semicolon stands at `q` outside of the parentheses and brackets that are
/// opened from `p` on.
pub open spec fn is_turn(s: Seq<char>, p: int, q: int) -> bool {
    p <= q < s.len() && (s[q] == '{' || s[q] == ';') && is_level(s, p, q)
}

/// The surplus of a stretch that is one character longer.
pub proof fn lemma_surplus_step(s: Seq<char>, p: int, i: int, a: char, b: char)
    requires
        0 <= p <= i < s.len(),
    ensures
        surplus(s.subrange(p, i + 1), a, b) == surplus(s.subrange(p, i), a, b) + if s[i] == a {
            1int
        } else if s[i] == b {
            -1int
        } else {
            0int
        },
{
    assert(s.subrange(p, i + 1) =~= s.subrange(p, i) + seq![s[i]]);
    lemma_surplus_join(s.subrange(p, i), seq![s[i]], a, b);
    assert(seq![s[i]].drop_first() =~= Seq::<char>::empty());
    assert(surplus(Seq::<char>::empty(), a, b) == 0);
}

proof fn lemma_opens(s: Seq<char>, p: int, i: int)
    requires
        0 <= p <= i,
        i <= s.len(),
        forall|q: int| q < i ==> !#[trigger] is_turn(s, p, q),
    ensures
        match body_open(
            s,
            i,
            surplus(s.subrange(p, i), '(', ')'),
            surplus(s.subrange(p, i), '[', ']'),
        ) {
            Some(o) => is_turn(s, p, o) && s[o] == '{' && forall|q: int| q < o ==> !#[trigger] is_turn(s, p, q),
            None => (forall|q: int| !#[trigger] is_turn(s, p, q)) || exists|q: int| #[trigger]
                is_turn(s, p, q) && s[q] == ';' && forall|r: int| r < q ==> !#[trigger] is_turn(s, p, r),
        },
    decreases s.len() - i,
{
    if i < s.len() {
        lemma_surplus_step(s, p, i, '(', ')');
        lemma_surplus_step(s, p, i, '[', ']');
        if is_turn(s, p, i) {
            if s[i] == ';' {
                assert(is_turn(s, p, i));
            }
        } else {
            assert forall|q: int| q < i + 1 implies !#[trigger] is_turn(s, p, q) by {
                if q < i {
                    assert(!is_turn(s, p, q));
                }
            }
            lemma_opens(s, p, i + 1);
        }
    }
}

/// Whether the brace at `o` opens the body of the function whose `fn` stands at `p`: it is the
/// first brace outside of parentheses and brackets, and no semicolon outside of them comes before
/// it.
pub open spec fn opens_body(s: Seq<char>, p: int, o: int) -> bool {
    is_turn(s, p, o) && s[o] == '{' && forall|q: int| q < o ==> !#[trigger] is_turn(s, p, q)
}

proof fn lemma_closes_body(s: Seq<char>, o: int, i: int)
    requires
        0 <= o < s.len(),
        s[o] == '{',
        o < i <= s.len(),
        forall|q: int| o < q <= i ==> surplus(#[trigger] s.subrange(o, q), '{', '}') > 0,
    ensures
        match body_close(s, i, surplus(s.subrange(o, i), '{', '}')) {
            Some(e) => closes_body(s, o, e),
            None => forall|e: int| !#[trigger] closes_body(s, o, e),
        },
    decreases s.len() - i,
{
    if i < s.len() {
        lemma_surplus_step(s, o, i, '{', '}');
        if s[i] == '}' && surplus(s.subrange(o, i), '{', '}') == 1 {
            assert(closes_body(s, o, i + 1));
        } else {
            assert forall|q: int| o < q <= i + 1 implies surplus(#[trigger] s.subrange(o, q), '{', '}') > 0 by {
                if q == i + 1 {
                    assert(surplus(s.subrange(o, i), '{', '}') > 0);
                }
            }
            lemma_closes_body(s, o, i + 1);
        }
    } else {
        assert forall|e: int| !#[trigger] closes_body(s, o, e) by {
            if o < e <= s.len() {
                assert(surplus(s.subrange(o, e), '{', '}') > 0);
            }
        }
    }
}

/// Whether the block that the brace at `o` opens is closed right before `e`: as many braces are
/// closed as opened, for the first time.
pub open spec fn closes_body(s: Seq<char>, o: int, e: int) -> bool {
    &&& o < e <= s.len()
    &&& surplus(s.subrange(o, e), '{', '}') == 0
    &&& forall|q: int| o < q < e ==> surplus(#[trigger] s.subrange(o, q), '{', '}') > 0
}

/// A function ends behind the brace that closes its body; it has no end only where no body is
/// opened or the body is not closed.
pub proof fn law_function_end(s: Seq<char>, p: int)
    requires
        0 <= p <= s.len(),
    ensures
        match function_end(s, p) {
            Some(e) => exists|o: int| #[trigger] opens_body(s, p, o) && closes_body(s, o, e),
            None => forall|o: int, e: int| #[trigger] opens_body(s, p, o) ==> !#[trigger] closes_body(s, o, e),
        },
{
    let none = Seq::<char>::empty();
    assert(s.subrange(p, p) =~= none);
    assert(surplus(none, '(', ')') == 0 && surplus(none, '[', ']') == 0);
    lemma_opens(s, p, p);
    match body_open(s, p, 0, 0) {
        Some(o) => {
            assert(opens_body(s, p, o));
            assert(s.subrange(o, o) =~= none);
            assert(surplus(none, '{', '}') == 0);
            lemma_surplus_step(s, o, o, '{', '}');
            assert forall|q: int| o < q <= o + 1 implies surplus(#[trigger] s.subrange(o, q), '{', '}') > 0 by {
                assert(q == o + 1);
            }
            lemma_closes_body(s, o, o + 1);
            assert(body_close(s, o, 0) == body_close(s, o + 1, 1));
            assert forall|x: int| #[trigger] opens_body(s, p, x) implies x == o by {
                if x < o {
                    assert(!is_turn(s, p, x));
                }
                if o < x {
                    assert(!is_turn(s, p, o));
                }
            }
        },
        None => {
            assert forall|o: int| !#[trigger] opens_body(s, p, o) by {
                if opens_body(s, p, o) {
                    let q = choose|q: int| #[trigger]
                        is_turn(s, p, q) && s[q] == ';' && forall|r: int|
                            r < q ==> !#[trigger] is_turn(s, p, r);
                    assert(is_turn(s, p, q));
                    if q < o {
                        assert(!is_turn(s, p, q));
                    }
                    if o < q {
                        assert(!is_turn(s, p, o));
                    }
                }
            }
        },
    }
}

/// Whether a function can be found at `p`: the needle stands there at the start of a word, and a
/// body that is closed follows.
pub open spec fn is_candidate(s: Seq<char>, needle: Seq<char>, p: int) -> bool {
    occurs_at(s, needle, p) && (p == 0 || !in_word(s[p - 1])) && function_end(s, p) is Some
}

/// Whether a place of the needle before `p` reaches into `p`.
pub open spec fn is_overlapped(s: Seq<char>, needle: Seq<char>, p: int) -> bool {
    exists|q: int| p - needle.len() < q < p && #[trigger] occurs_at(s, needle, q)
}

/// Whether `p` is one of the places or lies inside of the function at one of them.
#[verifier::opaque]
pub open spec fn is_within(s: Seq<char>, at: Seq<int>, p: int) -> bool {
    exists|k: int| 0 <= k < at.len() && #[trigger] at[k] <= p && p < function_end(s, at[k])->0
}

/// Whether `at` are the places from `pos` on where functions are found: each is one, each lies
/// behind the function at the one before, and every other place where one could be found lies
/// inside of one of these functions.
pub open spec fn are_candidates(s: Seq<char>, needle: Seq<char>, pos: int, at: Seq<int>) -> bool {
    &&& forall|k: int| 0 <= k < at.len() ==> pos <= #[trigger] at[k] && is_candidate(s, needle, at[k])
    &&& forall|k: int, l: int|
        0 <= k < l < at.len() ==> function_end(s, #[trigger] at[k])->0 <= #[trigger] at[l]
    &&& forall|p: int|
        pos <= p && #[trigger] is_candidate(s, needle, p) && !is_overlapped(s, needle, p) ==> is_within(
            s,
            at,
            p,
        )
}

proof fn lemma_within_more(s: Seq<char>, first: int, rest: Seq<int>, p: int)
    requires
        is_within(s, rest, p) || first <= p < function_end(s, first)->0,
    ensures
        is_within(s, seq![first] + rest, p),
{
    reveal(is_within);
    let all = seq![first] + rest;
    if first <= p < function_end(s, first)->0 {
        assert(all[0] <= p);
    } else {
        let k = choose|k: int|
            0 <= k < rest.len() && #[trigger] rest[k] <= p && p < function_end(s, rest[k])->0;
        assert(all[k + 1] == rest[k]);
    }
}

/// What is found at some places.
pub open spec fn spans_at(s: Seq<char>, at: Seq<int>) -> Seq<SpanText> {
    at.map_values(|p: int| span_at(s, p, function_end(s, p)->0))
}

proof fn lemma_candidates(s: Seq<char>, needle: Seq<char>, pos: int)
    requires
        needle.len() > 0,
        0 <= pos,
    ensures
        exists|at: Seq<int>| #[trigger]
            are_candidates(s, needle, pos, at) && function_spans(s, needle, pos) == spans_at(s, at),
    decreases s.len() - pos,
{
    law_found_first(s, needle, pos);
    match find_from(s, needle, pos) {
        None => {
            let at = Seq::<int>::empty();
            assert forall|p: int| pos <= p implies !#[trigger] is_candidate(s, needle, p) by {
                assert(!occurs_at(s, needle, p));
            }
            assert(are_candidates(s, needle, pos, at));
            assert(function_spans(s, needle, pos) =~= spans_at(s, at));
        },
        Some(p0) => {
            assert(occurs_at(s, needle, p0));
            if !starts_word(s, p0) || function_end(s, p0) is None {
                let next = (p0 + needle.len()) as int;
                lemma_candidates(s, needle, next);
                let at = choose|at: Seq<int>| #[trigger]
                    are_candidates(s, needle, next, at) && function_spans(s, needle, next) == spans_at(
                        s,
                        at,
                    );
                assert(!is_candidate(s, needle, p0));
                assert forall|p: int|
                    pos <= p && #[trigger] is_candidate(s, needle, p) && !is_overlapped(
                        s,
                        needle,
                        p,
                    ) implies is_within(s, at, p) by {
                    if p < p0 {
                        assert(!occurs_at(s, needle, p));
                    } else if p0 < p < next {
                        assert(occurs_at(s, needle, p0));
                    }
                }
                assert(are_candidates(s, needle, pos, at));
            } else {
                let e = function_end(s, p0)->0;
                law_function_end(s, p0);
                assert(p0 < e <= s.len());
                lemma_candidates(s, needle, e);
                let rest = choose|at: Seq<int>| #[trigger]
                    are_candidates(s, needle, e, at) && function_spans(s, needle, e) == spans_at(s, at);
                let at = seq![p0] + rest;
                assert(is_candidate(s, needle, p0));
                assert forall|k: int| 0 <= k < at.len() implies pos <= #[trigger] at[k] && is_candidate(
                    s,
                    needle,
                    at[k],
                ) by {
                    if k > 0 {
                        assert(at[k] == rest[k - 1]);
                    }
                }
                assert forall|k: int, l: int| 0 <= k < l < at.len() implies function_end(
                    s,
                    #[trigger] at[k],
                )->0 <= #[trigger] at[l] by {
                    assert(at[l] == rest[l - 1]);
                    if k > 0 {
                        assert(at[k] == rest[k - 1]);
                    }
                }
                assert forall|p: int|
                    pos <= p && #[trigger] is_candidate(s, needle, p) && !is_overlapped(
                        s,
                        needle,
                        p,
                    ) implies is_within(s, at, p) by {
                    if p < p0 {
                        assert(!occurs_at(s, needle, p));
                    } else {
                        lemma_within_more(s, p0, rest, p);
                    }
                }
                assert(are_candidates(s, needle, pos, at));
                assert(function_spans(s, needle, pos) =~= spans_at(s, at)) by {
                    assert(spans_at(s, at) =~= seq![span_at(s, p0, e)] + spans_at(s, rest));
                }
            }
        },
    }
}

/// Every function that begins with the needle is found, wherever it stands, unless it stands
/// inside of one that is found: each place where the needle stands at the start of a word and a
/// body opens and closes gives one, in order.
pub proof fn law_candidates_are_complete(s: Seq<char>, needle: Seq<char>)
    requires
        needle.len() > 0,
    ensures
        exists|at: Seq<int>| #[trigger]
            are_candidates(s, needle, 0, at) && function_spans(s, needle, 0) == spans_at(s, at),
{
    lemma_candidates(s, needle, 0);
}

/// A place where a function can be found, and that lies in none that is found from a place before
/// it, is found.
pub proof fn law_candidate_is_found(s: Seq<char>, needle: Seq<char>, p: int)
    requires
        needle.len() > 0,
        is_candidate(s, needle, p),
        !is_overlapped(s, needle, p),
        forall|q: int|
            q < p && #[trigger] is_candidate(s, needle, q) ==> function_end(s, q)->0 <= p,
    ensures
        function_spans(s, needle, 0).contains(span_at(s, p, function_end(s, p)->0)),
{
    lemma_candidates(s, needle, 0);
    let at = choose|at: Seq<int>| #[trigger]
        are_candidates(s, needle, 0, at) && function_spans(s, needle, 0) == spans_at(s, at);
    assert(is_within(s, at, p));
    reveal(is_within);
    let k = choose|k: int| 0 <= k < at.len() && #[trigger] at[k] <= p && p < function_end(s, at[k])->0;
    assert(is_candidate(s, needle, at[k]));
    assert(at[k] == p);
    assert(spans_at(s, at)[k] == span_at(s, p, function_end(s, p)->0));
}

/// Whether a stretch of a file is a function or a method of this name.
pub open spec fn bears_name(span: SpanText, name: Seq<char>) -> bool {
    (fn_head(span.text) matches Some(h) && h.name == name) || (method_head(span.text) matches Some(h)
        && h.name == name)
}

/// Every stretch that is a function or a method of the name is offered, and no other, in order,
/// each with its own text and lines.
pub proof fn law_every_function_of_the_name_is_offered(
    path: Seq<char>,
    name: Seq<char>,
    spans: Seq<SpanText>,
    impl_type: Option<Seq<char>>,
)
    ensures
        is_sieved(
            spans,
            span_matches(path, name, spans, impl_type),
            |s: SpanText| bears_name(s, name),
            |s: SpanText|
                span_match(path, name, s, fn_head(s.text), method_head(s.text), impl_type)->0,
        ),
    decreases spans.len(),
{
    let keep = |s: SpanText| bears_name(s, name);
    let give = |s: SpanText|
        span_match(path, name, s, fn_head(s.text), method_head(s.text), impl_type)->0;
    let all = span_matches(path, name, spans, impl_type);
    if spans.len() == 0 {
        lemma_sieve_nothing(spans, all, keep, give);
    } else {
        let d = spans.drop_last();
        law_every_function_of_the_name_is_offered(path, name, d, impl_type);
        let earlier = span_matches(path, name, d, impl_type);
        let s = spans.last();
        let m = span_match(path, name, s, fn_head(s.text), method_head(s.text), impl_type);
        assert(m is Some == keep(s));
        if keep(s) {
            assert(all =~= earlier.push(give(s)));
        } else {
            assert(all =~= earlier);
        }
        lemma_sieve_more(spans, earlier, all, keep, give);
    }
}

/// What is offered for a stretch names the function, its file, its text and its lines, and how it
/// was declared; a method is told apart by the type that it belongs to.
pub proof fn law_offer_is_the_function(
    path: Seq<char>,
    name: Seq<char>,
    span: SpanText,
    impl_type: Option<Seq<char>>,
)
    requires
        bears_name(span, name),
    ensures
        ({
            let m = span_match(path, name, span, fn_head(span.text), method_head(span.text), impl_type)->0;
            &&& m.file_path == path
            &&& m.block_name == name
            &&& m.block_type == CodeBlockType::Function
            &&& m.old_full_block == span.text
            &&& m.line_range == Some((span.start_line, span.end_line))
            &&& m.head matches Some(h) && h.name == name && (m.head == fn_head(span.text) || m.head
                == method_head(span.text))
            &&& (fn_head(span.text) matches Some(h) && h.name == name) <==> m.context_label is None
        }),
{
}

/// Whether `w` is one of the words that may stand before the `fn` of a function.
pub open spec fn is_modifier(w: Seq<char>) -> bool {
    w == "pub"@ || w == "async"@ || w == "unsafe"@ || w == "const"@ || w == "default"@ || w == "extern"@
}

proof fn lemma_modifier(w: Seq<char>)
    requires
        is_modifier(w),
    ensures
        w.len() > 0,
        forall|i: int| 0 <= i < w.len() ==> in_word(#[trigger] w[i]) && (w[i] as u32) < 128,
{
    reveal_strlit("pub");
    reveal_strlit("async");
    reveal_strlit("unsafe");
    reveal_strlit("const");
    reveal_strlit("default");
    reveal_strlit("extern");
}

proof fn lemma_one_word(s: Seq<char>, e: int, a: Seq<char>, b: Seq<char>)
    requires
        0 <= e <= s.len(),
        is_modifier(a),
        is_modifier(b),
        word_start(s, e, a) is Some,
        word_start(s, e, b) is Some,
    ensures
        word_start(s, e, a) == word_start(s, e, b),
{
    lemma_modifier(a);
    lemma_modifier(b);
    if a.len() > b.len() {
        let q = e - b.len();
        assert(s.subrange(e - a.len(), e)[a.len() - b.len() - 1] == s[q - 1]);
        assert(in_word(s[q - 1]));
    } else if b.len() > a.len() {
        let q = e - a.len();
        assert(s.subrange(e - b.len(), e)[b.len() - a.len() - 1] == s[q - 1]);
        assert(in_word(s[q - 1]));
    }
}

proof fn lemma_row(s: Seq<char>, p: int)
    requires
        0 <= p <= s.len(),
    ensures
        row_start(s, p) <= p,
        modifier_start(s, p) matches Some(q) ==> 0 <= q < p ==> row_start(s, p) <= q,
    decreases p,
{
    match modifier_start(s, p) {
        Some(q) => {
            if 0 <= q < p {
                lemma_row(s, q);
            }
        },
        None => {},
    }
}

proof fn lemma_modifiers(s: Seq<char>, p: int)
    requires
        0 <= p <= s.len(),
    ensures
        modifiers_start(s, p) <= row_start(s, p),
    decreases p,
{
    lemma_row(s, p);
    let q = row_start(s, p);
    let e = blank_start(s, q, false);
    let earlier = row_start(s, e);
    if 0 <= earlier < e && earlier < p && crate::wcf_heads::is_indent(s, q) && crate::wcf_heads::is_indent(
        s,
        earlier,
    ) {
        lemma_modifiers(s, earlier);
        lemma_row(s, earlier);
        lemma_blank(s, q, false);
    }
}

proof fn lemma_blank(s: Seq<char>, p: int, same_line: bool)
    ensures
        blank_start(s, p, same_line) <= p,
        p >= 0 ==> blank_start(s, p, same_line) >= 0,
    decreases p,
{
    if p > 0 && crate::text::is_space(s[p - 1]) && !(same_line && s[p - 1] == '\n') {
        lemma_blank(s, p - 1, same_line);
    }
}

/// A modifier that stands before the `fn` of a function on its line, with white space between
/// them, belongs to the function.
pub proof fn law_modifiers_belong_to_the_function(s: Seq<char>, p: int, w: Seq<char>, q: int)
    requires
        0 <= q,
        q + w.len() <= p <= s.len(),
        is_modifier(w),
        s.subrange(q, q + w.len()) == w,
        q == 0 || !in_word(s[q - 1]),
        forall|i: int|
            q + w.len() <= i < p ==> crate::text::is_space(#[trigger] s[i]) && s[i] != '\n',
    ensures
        modifiers_start(s, p) <= q,
{
    let e = (q + w.len()) as int;
    lemma_modifier(w);
    assert(in_word(s[e - 1])) by {
        assert(s.subrange(q, q + w.len())[w.len() - 1] == s[e - 1]);
    }
    lemma_no_blank(s[e - 1]);
    lemma_blank_to(s, p, e);
    assert(word_start(s, e, w) == Some(q));
    assert(modifier_start(s, p) is Some);
    if word_start(s, e, "pub"@) is Some {
        lemma_one_word(s, e, w, "pub"@);
    }
    if word_start(s, e, "async"@) is Some {
        lemma_one_word(s, e, w, "async"@);
    }
    if word_start(s, e, "unsafe"@) is Some {
        lemma_one_word(s, e, w, "unsafe"@);
    }
    if word_start(s, e, "const"@) is Some {
        lemma_one_word(s, e, w, "const"@);
    }
    if word_start(s, e, "default"@) is Some {
        lemma_one_word(s, e, w, "default"@);
    }
    if word_start(s, e, "extern"@) is Some {
        lemma_one_word(s, e, w, "extern"@);
    }
    assert(modifier_start(s, p) == Some(q));
    lemma_row(s, p);
    lemma_modifiers(s, p);
}

proof fn lemma_no_blank(c: char)
    requires
        in_word(c),
        (c as u32) < 128,
    ensures
        !crate::text::is_space(c),
{
}

proof fn lemma_blank_to(s: Seq<char>, p: int, e: int)
    requires
        0 < e <= p <= s.len(),
        !crate::text::is_space(s[e - 1]),
        forall|i: int| e <= i < p ==> crate::text::is_space(#[trigger] s[i]) && s[i] != '\n',
    ensures
        blank_start(s, p, true) == e,
    decreases p,
{
    if p > e {
        assert(crate::text::is_space(s[p - 1]) && s[p - 1] != '\n');
        lemma_blank_to(s, p - 1, e);
    }
}

} // verus!
