//! What the analyser lists of a file, said of its lines.

use vstd::prelude::*;
use crate::braces::{indent, tallied};
use crate::braces_laws::{chars_of_lines, is_closed, law_blank, lemma_is_closed, lemma_tallied_join};
use crate::text::{
    count_of, find_from, is_space, joined, lines, newlines, occurs, occurs_at, trimmed, trimmed_end,
    trimmed_start, until_any, without_char, words,
};
use crate::text_laws::{all_space, law_found_first, law_newlines, law_until_any};
use crate::unicode::alphanumeric;
use crate::wcl::{
    all_uses, body_end, body_last, body_limit, class_on, classes_from, classes_in, declared_class, declared_function,
    function_on, function_uses, functions_from, functions_in, is_identifier, keeps_function, lang_of, name_after,
    search_limit, simple_name, uses_of, ClassText, FunctionText, Lang, Limits,
};
use crate::wff::second_piece;

verus! {

/// Whether `name` is a name: letters, digits and underscores, at least one, and no white space.
pub open spec fn is_name(name: Seq<char>) -> bool {
    name.len() > 0 && forall|i: int|
        0 <= i < name.len() ==> (alphanumeric(#[trigger] name[i]) || name[i] == '_') && !is_space(name[i])
}

/// Whether the first `keyword` of a line stands behind `pre`, and `name` and then `rest` behind it,
/// where `rest` is empty or begins with one of `stops` that is no part of the keyword.
pub open spec fn declares_name(
    t: Seq<char>,
    pre: Seq<char>,
    keyword: Seq<char>,
    name: Seq<char>,
    rest: Seq<char>,
    stops: Seq<char>,
) -> bool {
    &&& t == pre + keyword + name + rest
    &&& is_name(name)
    &&& forall|i: int| 0 <= i < name.len() ==> !stops.contains(#[trigger] name[i])
    &&& forall|j: int| 0 <= j < pre.len() ==> !#[trigger] occurs_at(t, keyword, j)
    &&& rest.len() > 0 ==> stops.contains(rest[0]) && !keyword.contains(rest[0])
}

proof fn lemma_trimmed_name(name: Seq<char>)
    requires
        is_name(name),
    ensures
        trimmed(name) == name,
{
    assert(!is_space(name[0]));
    assert(trimmed_start(name) == name);
    assert(!is_space(name[name.len() - 1]));
    assert(trimmed_end(name) == name);
}

proof fn lemma_put_together(pre: Seq<char>, keyword: Seq<char>, name: Seq<char>, rest: Seq<char>)
    ensures
        ({
            let t = pre + keyword + name + rest;
            &&& occurs_at(t, keyword, pre.len() as int)
            &&& t.skip((pre.len() + keyword.len()) as int) == name + rest
        }),
{
    let t = pre + keyword + name + rest;
    let a = pre.len() as int;
    assert(t.subrange(a, a + keyword.len()) =~= keyword);
    assert(t.skip((pre.len() + keyword.len()) as int) =~= name + rest);
}

proof fn lemma_found_there(t: Seq<char>, keyword: Seq<char>, a: int)
    requires
        0 <= a,
        occurs_at(t, keyword, a),
        forall|j: int| 0 <= j < a ==> !#[trigger] occurs_at(t, keyword, j),
    ensures
        find_from(t, keyword, 0) == Some(a),
        occurs(t, keyword),
{
    law_found_first(t, keyword, 0);
    match find_from(t, keyword, 0) {
        Some(b) => {
            assert(occurs_at(t, keyword, b));
        },
        None => {},
    }
}

proof fn lemma_keyword(
    t: Seq<char>,
    pre: Seq<char>,
    keyword: Seq<char>,
    name: Seq<char>,
    rest: Seq<char>,
    stops: Seq<char>,
)
    requires
        declares_name(t, pre, keyword, name, rest, stops),
        keyword.len() > 0,
        is_space(keyword.last()),
    ensures
        find_from(t, keyword, 0) == Some(pre.len() as int),
        occurs(t, keyword),
        t.skip((pre.len() + keyword.len()) as int) == name + rest,
{
    lemma_put_together(pre, keyword, name, rest);
    lemma_found_there(t, keyword, pre.len() as int);
}

proof fn lemma_no_keyword(tail: Seq<char>, keyword: Seq<char>, name: Seq<char>, rest: Seq<char>, j: int)
    requires
        tail == name + rest,
        is_name(name),
        keyword.len() > 0,
        is_space(keyword.last()),
        rest.len() > 0 ==> !keyword.contains(rest[0]),
        0 <= j < name.len(),
    ensures
        !occurs_at(tail, keyword, j),
{
    let n = name.len() as int;
    if occurs_at(tail, keyword, j) {
        let k = keyword.len() as int;
        let part = tail.subrange(j, j + k);
        assert(part[k - 1] == tail[j + k - 1]);
        if j + k <= n {
            assert(tail[j + k - 1] == name[j + k - 1]);
        } else {
            assert(part[n - j] == tail[n]);
            assert(tail[n] == rest[0]);
            assert(keyword[n - j] == rest[0]);
            assert(keyword.contains(rest[0]));
        }
    }
}

proof fn lemma_until_stop(piece: Seq<char>, name: Seq<char>, stops: Seq<char>)
    requires
        name.is_prefix_of(piece),
        forall|i: int| 0 <= i < name.len() ==> !stops.contains(#[trigger] name[i]),
        piece.len() > name.len() ==> stops.contains(piece[name.len() as int]),
    ensures
        until_any(piece, stops) == name,
{
    let n = name.len() as int;
    law_until_any(piece, stops);
    let u = until_any(piece, stops);
    assert forall|i: int| 0 <= i < n implies piece[i] == name[i] by {
        assert(name == piece.subrange(0, n));
    }
    if u.len() < n {
        assert(stops.contains(piece[u.len() as int]));
        assert(piece[u.len() as int] == name[u.len() as int]);
    }
    if u.len() > n {
        assert(!stops.contains(piece[n]));
    }
    assert(u =~= name);
}

proof fn lemma_name_after(
    t: Seq<char>,
    pre: Seq<char>,
    keyword: Seq<char>,
    name: Seq<char>,
    rest: Seq<char>,
    stops: Seq<char>,
)
    requires
        declares_name(t, pre, keyword, name, rest, stops),
        keyword.len() > 0,
        is_space(keyword.last()),
    ensures
        name_after(t, keyword, stops) == Some(name),
        occurs(t, keyword),
{
    lemma_keyword(t, pre, keyword, name, rest, stops);
    let n = name.len() as int;
    let tail = name + rest;
    let piece = second_piece(t, keyword);
    law_found_first(tail, keyword, 0);
    match find_from(tail, keyword, 0) {
        Some(b) => {
            if b < n {
                lemma_no_keyword(tail, keyword, name, rest, b);
            }
            assert(piece == tail.take(b));
        },
        None => {
            assert(piece == tail);
        },
    }
    assert(name =~= piece.subrange(0, n));
    if piece.len() > n {
        assert(piece[n] == rest[0]);
    }
    lemma_until_stop(piece, name, stops);
    lemma_trimmed_name(name);
    assert(is_identifier(name));
}

/// The word that declares a function.
pub open spec fn function_keyword(lang: Lang) -> Seq<char> {
    match lang {
        Lang::Rust => "fn "@,
        Lang::Python => "def "@,
        Lang::Script => "function "@,
        _ => "func "@,
    }
}

proof fn lemma_no_comment(t: Seq<char>)
    ensures
        t.len() > 0 && t[0] != '#' ==> !"#"@.is_prefix_of(t),
        !occurs(t, "//"@) ==> !"//"@.is_prefix_of(t),
{
    reveal_strlit("#");
    if "#"@.is_prefix_of(t) {
        assert("#"@ == t.subrange(0, 1));
        assert(t.subrange(0, 1)[0] == t[0]);
    }
    if "//"@.is_prefix_of(t) {
        assert(t.subrange(0, "//"@.len() as int) =~= "//"@);
        assert(occurs_at(t, "//"@, 0));
    }
}

/// A line that holds the word that declares functions in its language, a name behind it and then
/// a bracket or nothing, declares the function of that name, whatever stands before the word,
/// unless it holds a comment: in Rust and in scripts anywhere, in Python at its start.
pub proof fn law_declared_function_is_seen(
    t: Seq<char>,
    lang: Lang,
    pre: Seq<char>,
    name: Seq<char>,
    rest: Seq<char>,
)
    requires
        lang == Lang::Rust || lang == Lang::Python || lang == Lang::Script || lang == Lang::Go,
        declares_name(t, pre, function_keyword(lang), name, rest, seq!['(', ' ', '<', '{']),
        lang == Lang::Rust || lang == Lang::Script ==> !occurs(t, "//"@),
        lang == Lang::Python ==> t[0] != '#',
    ensures
        declared_function(t, lang) == Some(name),
{
    reveal_strlit("fn ");
    reveal_strlit("def ");
    reveal_strlit("function ");
    reveal_strlit("func ");
    reveal_strlit("( <{");
    reveal_strlit("#");
    assert("( <{"@ =~= seq!['(', ' ', '<', '{']);
    lemma_name_after(t, pre, function_keyword(lang), name, rest, "( <{"@);
    lemma_no_comment(t);
}

/// The words that declare types, in the order in which they are looked for.
pub open spec fn class_keyword(lang: Lang, k: int) -> Seq<char> {
    match lang {
        Lang::Rust => if k == 0 {
            "struct "@
        } else if k == 1 {
            "enum "@
        } else {
            "trait "@
        },
        Lang::C => if k == 0 {
            "struct "@
        } else if k == 1 {
            "class "@
        } else {
            "enum "@
        },
        _ => "class "@,
    }
}

/// A line that holds one of the words that declare types in its language, none of those that are
/// looked for before it, and a name behind it, declares the type of that name, unless it holds a
/// comment.
pub proof fn law_declared_type_is_seen(
    t: Seq<char>,
    lang: Lang,
    k: int,
    pre: Seq<char>,
    name: Seq<char>,
    rest: Seq<char>,
)
    requires
        0 <= k < 3,
        lang == Lang::Rust || lang == Lang::C || ((lang == Lang::Python || lang == Lang::Script) && k == 0),
        declares_name(t, pre, class_keyword(lang, k), name, rest, seq![' ', '{', '(', ':']),
        forall|j: int| 0 <= j < k ==> !occurs(t, #[trigger] class_keyword(lang, j)),
        lang != Lang::Python ==> !occurs(t, "//"@),
        lang == Lang::Python ==> t[0] != '#',
    ensures
        declared_class(t, lang) matches Some((kind, n)) && n == name && kind + " "@ == class_keyword(lang, k),
{
    reveal_strlit("struct ");
    reveal_strlit("enum ");
    reveal_strlit("trait ");
    reveal_strlit("class ");
    reveal_strlit("struct");
    reveal_strlit("enum");
    reveal_strlit("trait");
    reveal_strlit("class");
    reveal_strlit(" ");
    reveal_strlit(" {(:");
    reveal_strlit("#");
    reveal_strlit("//");
    assert(" {(:"@ =~= seq![' ', '{', '(', ':']);
    assert("struct"@ + " "@ =~= "struct "@);
    assert("enum"@ + " "@ =~= "enum "@);
    assert("trait"@ + " "@ =~= "trait "@);
    assert("class"@ + " "@ =~= "class "@);
    lemma_name_after(t, pre, class_keyword(lang, k), name, rest, " {(:"@);
    lemma_no_comment(t);
    if k >= 1 {
        assert(!occurs(t, class_keyword(lang, 0)));
    }
    if k >= 2 {
        assert(!occurs(t, class_keyword(lang, 1)));
    }
}

/// No name is made up: what a line declares is a name that stands on it.
pub proof fn law_declared_names_are_identifiers(t: Seq<char>, lang: Lang)
    ensures
        declared_function(t, lang) matches Some(n) ==> is_identifier(n),
        declared_class(t, lang) matches Some((_, n)) ==> is_identifier(n),
        lang == Lang::Rust && occurs(t, "//"@) ==> declared_function(t, lang) is None && declared_class(
            t,
            lang,
        ) is None,
        lang == Lang::Other ==> declared_function(t, lang) is None && declared_class(t, lang) is None,
{
}

proof fn lemma_listed(
    ls: Seq<Seq<char>>,
    ext: Seq<char>,
    min: nat,
    max: nat,
    i: int,
    stop: int,
    found: Seq<FunctionText>,
)
    requires
        0 <= i,
        stop <= ls.len(),
        found.len() > 0 ==> found.last().start_line <= i,
        forall|k: int, l: int|
            0 <= k < l < found.len() ==> (#[trigger] found[k]).start_line < (#[trigger] found[l]).start_line,
    ensures
        ({
            let r = functions_from(ls, ext, min, max, i, stop, found);
            &&& found.is_prefix_of(r)
            &&& forall|k: int, l: int|
                0 <= k < l < r.len() ==> (#[trigger] r[k]).start_line < (#[trigger] r[l]).start_line
            &&& forall|k: int|
                found.len() <= k < r.len() ==> i < (#[trigger] r[k]).start_line <= stop && is_listed(
                    ls,
                    ext,
                    min,
                    r[k].start_line - 1,
                ) && r[k] == function_on(ls, r[k].start_line - 1, ext, r[k].name) && declared_function(
                    trimmed(ls[r[k].start_line - 1]),
                    lang_of(ext),
                ) == Some(r[k].name)
            &&& forall|j: int|
                i <= j < stop && #[trigger] is_listed(ls, ext, min, j) ==> r.len() >= max || starts_on(r, j + 1)
            &&& r.len() <= max || r.len() <= found.len() + 1
        }),
    decreases stop - i,
{
    let r = functions_from(ls, ext, min, max, i, stop, found);
    if i < stop {
        match declared_function(trimmed(ls[i]), lang_of(ext)) {
            Some(name) => {
                let keeps = keeps_function(ls, i, ext, min);
                let f = function_on(ls, i, ext, name);
                let now = if keeps {
                    found.push(f)
                } else {
                    found
                };
                assert(is_listed(ls, ext, min, i) == keeps);
                assert forall|k: int, l: int| 0 <= k < l < now.len() implies (#[trigger] now[k]).start_line < (
                #[trigger] now[l]).start_line by {
                    if l == found.len() {
                        assert(now[k] == found[k]);
                        if k < found.len() - 1 {
                            assert(found[k].start_line < found[found.len() - 1].start_line);
                        }
                    }
                }
                if now.len() < max {
                    lemma_listed(ls, ext, min, max, i + 1, stop, now);
                    if keeps {
                        assert(r[found.len() as int] == now[found.len() as int]);
                        assert(starts_on(r, i + 1));
                    }
                    assert forall|j: int| i <= j < stop && #[trigger] is_listed(ls, ext, min, j) implies r.len()
                        >= max || starts_on(r, j + 1) by {}
                    assert(found.is_prefix_of(r));
                }
            },
            None => {
                lemma_listed(ls, ext, min, max, i + 1, stop, found);
                assert(!is_listed(ls, ext, min, i));
            },
        }
    }
}

/// Whether one of the functions begins on line `line`, counted from one.
pub open spec fn starts_on(fs: Seq<FunctionText>, line: int) -> bool {
    exists|k: int| 0 <= k < fs.len() && (#[trigger] fs[k]).start_line == line
}

/// Whether line `i`, counted from zero, declares a function that has more than one line and as
/// many as asked for.
pub open spec fn is_listed(ls: Seq<Seq<char>>, ext: Seq<char>, min: nat, i: int) -> bool {
    declared_function(trimmed(ls[i]), lang_of(ext)) is Some && keeps_function(ls, i, ext, min)
}

/// Every function that is declared on one of the first two thousand lines and is long enough is
/// listed, until there are as many as asked for; in order, each with its name and its lines; and
/// nothing else is.
pub proof fn law_every_function_is_listed(content: Seq<char>, ext: Seq<char>, min: nat, max: nat)
    ensures
        ({
            let ls = lines(content);
            let r = functions_in(content, ext, min, max);
            &&& forall|j: int|
                0 <= j < ls.len() && j < 2000 && #[trigger] is_listed(ls, ext, min, j) ==> r.len() >= max
                    || starts_on(r, j + 1)
            &&& forall|k: int|
                0 <= k < r.len() ==> 1 <= (#[trigger] r[k]).start_line <= ls.len() && is_listed(
                    ls,
                    ext,
                    min,
                    r[k].start_line - 1,
                ) && declared_function(trimmed(ls[r[k].start_line - 1]), lang_of(ext)) == Some(r[k].name)
                    && r[k].end_line == body_last(ls, r[k].start_line - 1, ext) + 1
            &&& forall|k: int, l: int|
                0 <= k < l < r.len() ==> (#[trigger] r[k]).start_line < (#[trigger] r[l]).start_line
            &&& r.len() <= max || r.len() <= 1
        }),
{
    let ls = lines(content);
    lemma_listed(ls, ext, min, max, 0, search_limit(ls), Seq::empty());
}

/// Whether one of the types begins on line `line`, counted from one.
pub open spec fn type_starts_on(cs: Seq<ClassText>, line: int) -> bool {
    exists|k: int| 0 <= k < cs.len() && (#[trigger] cs[k]).start_line == line
}

/// Whether line `i`, counted from zero, declares a type that has more than one line and as many
/// as asked for.
pub open spec fn is_type_listed(ls: Seq<Seq<char>>, ext: Seq<char>, lim: Limits, i: int) -> bool {
    declared_class(trimmed(ls[i]), lang_of(ext)) is Some && keeps_function(ls, i, ext, lim.min_class)
}

/// Whether `c` is the type that is declared on its first line: its keyword and its name, its last
/// line, and as its methods the functions of its own lines, where the language has them listed.
pub open spec fn is_type_of(ls: Seq<Seq<char>>, ext: Seq<char>, lim: Limits, c: ClassText) -> bool {
    let i = c.start_line - 1;
    declared_class(trimmed(ls[i]), lang_of(ext)) matches Some((kind, name)) && c.name == kind + " "@ + name
        && c.end_line == body_last(ls, i, ext) + 1 && (ext == "rs"@ || ext == "py"@ || ext == "js"@ || ext
        == "ts"@ ==> c.methods == functions_in(
        joined(ls.subrange(i, c.end_line), "\n"@),
        ext,
        lim.min_function,
        lim.max_functions,
    ))
}

proof fn lemma_types_listed(
    ls: Seq<Seq<char>>,
    ext: Seq<char>,
    lim: Limits,
    i: int,
    stop: int,
    found: Seq<ClassText>,
)
    requires
        0 <= i,
        stop <= ls.len(),
        found.len() > 0 ==> found.last().start_line <= i,
        forall|k: int, l: int|
            0 <= k < l < found.len() ==> (#[trigger] found[k]).start_line < (#[trigger] found[l]).start_line,
    ensures
        ({
            let r = classes_from(ls, ext, lim, i, stop, found);
            &&& found.is_prefix_of(r)
            &&& forall|k: int, l: int|
                0 <= k < l < r.len() ==> (#[trigger] r[k]).start_line < (#[trigger] r[l]).start_line
            &&& forall|k: int|
                found.len() <= k < r.len() ==> i < (#[trigger] r[k]).start_line <= stop && is_type_listed(
                    ls,
                    ext,
                    lim,
                    r[k].start_line - 1,
                ) && is_type_of(ls, ext, lim, r[k])
            &&& forall|j: int|
                i <= j < stop && #[trigger] is_type_listed(ls, ext, lim, j) ==> r.len() >= lim.max_classes
                    || type_starts_on(r, j + 1)
            &&& r.len() <= lim.max_classes || r.len() <= found.len() + 1
        }),
    decreases stop - i,
{
    let r = classes_from(ls, ext, lim, i, stop, found);
    if i < stop {
        match declared_class(trimmed(ls[i]), lang_of(ext)) {
            Some((kind, name)) => {
                let keeps = keeps_function(ls, i, ext, lim.min_class);
                let c = class_on(ls, i, ext, kind, name, lim);
                let now = if keeps {
                    found.push(c)
                } else {
                    found
                };
                assert(is_type_listed(ls, ext, lim, i) == keeps);
                assert(is_type_of(ls, ext, lim, c));
                assert forall|k: int, l: int| 0 <= k < l < now.len() implies (#[trigger] now[k]).start_line < (
                #[trigger] now[l]).start_line by {
                    if l == found.len() {
                        assert(now[k] == found[k]);
                        if k < found.len() - 1 {
                            assert(found[k].start_line < found[found.len() - 1].start_line);
                        }
                    }
                }
                if now.len() < lim.max_classes {
                    lemma_types_listed(ls, ext, lim, i + 1, stop, now);
                    if keeps {
                        assert(r[found.len() as int] == now[found.len() as int]);
                        assert(type_starts_on(r, i + 1));
                    }
                    assert forall|j: int| i <= j < stop && #[trigger] is_type_listed(
                        ls,
                        ext,
                        lim,
                        j,
                    ) implies r.len() >= lim.max_classes || type_starts_on(r, j + 1) by {}
                    assert(found.is_prefix_of(r));
                }
            },
            None => {
                lemma_types_listed(ls, ext, lim, i + 1, stop, found);
                assert(!is_type_listed(ls, ext, lim, i));
            },
        }
    }
}

/// Every type that is declared on one of the first two thousand lines and is long enough is
/// listed, until there are as many as asked for; in order, each with its name, its lines and its
/// methods; and nothing else is.
pub proof fn law_every_type_is_listed(content: Seq<char>, ext: Seq<char>, lim: Limits)
    ensures
        ({
            let ls = lines(content);
            let r = classes_in(content, ext, lim);
            &&& forall|j: int|
                0 <= j < ls.len() && j < 2000 && #[trigger] is_type_listed(ls, ext, lim, j) ==> r.len()
                    >= lim.max_classes || type_starts_on(r, j + 1)
            &&& forall|k: int|
                0 <= k < r.len() ==> 1 <= (#[trigger] r[k]).start_line <= ls.len() && is_type_listed(
                    ls,
                    ext,
                    lim,
                    r[k].start_line - 1,
                ) && is_type_of(ls, ext, lim, r[k])
            &&& forall|k: int, l: int|
                0 <= k < l < r.len() ==> (#[trigger] r[k]).start_line < (#[trigger] r[l]).start_line
            &&& r.len() <= lim.max_classes || r.len() <= 1
        }),
{
    let ls = lines(content);
    lemma_types_listed(ls, ext, lim, 0, search_limit(ls), Seq::empty());
}

/// Whether line `i` stands behind the body of Python that begins on line `start`: it is not blank,
/// and is indented no deeper.
pub open spec fn is_outside(ls: Seq<Seq<char>>, start: int, i: int) -> bool {
    i > start && indent(ls[i]) <= indent(ls[start]) && !all_space(ls[i], 0, ls[i].len() as int)
}

proof fn lemma_python_body(ls: Seq<Seq<char>>, start: int, i: int, stop: int, state: (nat, nat, bool))
    requires
        0 <= start <= i,
        stop <= ls.len(),
        forall|k: int| start < k < i ==> !#[trigger] is_outside(ls, start, k),
    ensures
        ({
            let e = body_end(ls, start, i, stop, state, true);
            ||| i - 1 <= e && e + 1 < stop && is_outside(ls, start, e + 1) && forall|k: int|
                start < k <= e ==> !#[trigger] is_outside(ls, start, k)
            ||| e == start && forall|k: int| start < k < stop ==> !#[trigger] is_outside(ls, start, k)
        }),
    decreases stop - i,
{
    if i < stop {
        let after = tallied(ls[i], state.0, state.1, state.2);
        law_blank(ls[i]);
        if !is_outside(ls, start, i) {
            lemma_python_body(ls, start, i + 1, stop, after);
        } else {
            assert(is_outside(ls, start, (i - 1) + 1));
        }
    }
}

proof fn lemma_block_body(ls: Seq<Seq<char>>, start: int, i: int, stop: int)
    requires
        0 <= start <= i,
        stop <= ls.len(),
        forall|k: int| start <= k < i ==> !#[trigger] is_closed(ls, start, k),
    ensures
        ({
            let e = body_end(
                ls,
                start,
                i,
                stop,
                tallied(chars_of_lines(ls, start, i), 0, 0, false),
                false,
            );
            ||| i <= e < stop && is_closed(ls, start, e) && forall|k: int|
                start <= k < e ==> !#[trigger] is_closed(ls, start, k)
            ||| e == start && forall|k: int| start <= k < stop ==> !#[trigger] is_closed(ls, start, k)
        }),
    decreases stop - i,
{
    if i < stop {
        let s = chars_of_lines(ls, start, i);
        let state = tallied(s, 0, 0, false);
        let t = chars_of_lines(ls, start, i + 1);
        assert(t == s + ls[i]);
        lemma_tallied_join(s, ls[i], 0, 0, false);
        let after = tallied(ls[i], state.0, state.1, state.2);
        assert(after == tallied(t, 0, 0, false));
        lemma_is_closed(ls, start, i);
        if after != (0nat, 0nat, true) {
            lemma_block_body(ls, start, i + 1, stop);
        }
    }
}

/// The body of Python that begins on a line ends before the first line, of the five hundred that
/// are searched, that is not blank and is indented no deeper; in other languages a body ends on
/// the first of these lines behind which a block was opened and all is closed again. Where there
/// is no such line, it is taken to end where it begins.
pub proof fn law_body_ends(ls: Seq<Seq<char>>, start: int, ext: Seq<char>)
    requires
        0 <= start < ls.len(),
    ensures
        ({
            let e = body_last(ls, start, ext);
            let stop = if start + 500 < ls.len() {
                start + 500
            } else {
                ls.len() as int
            };
            &&& ext == "py"@ ==> {
                ||| start <= e && e + 1 < stop && is_outside(ls, start, e + 1) && forall|k: int|
                    start < k <= e ==> !#[trigger] is_outside(ls, start, k)
                ||| e == start && forall|k: int| start < k < stop ==> !#[trigger] is_outside(ls, start, k)
            }
            &&& ext != "py"@ ==> {
                ||| start <= e < stop && is_closed(ls, start, e) && forall|k: int|
                    start <= k < e ==> !#[trigger] is_closed(ls, start, k)
                ||| e == start && forall|k: int| start <= k < stop ==> !#[trigger] is_closed(ls, start, k)
            }
        }),
{
    let stop = body_limit(ls, start);
    if ext == "py"@ {
        lemma_python_body(ls, start, start, stop, (0, 0, false));
    } else {
        assert(chars_of_lines(ls, start, start) =~= Seq::<char>::empty());
        assert(tallied(Seq::<char>::empty(), 0, 0, false) == (0nat, 0nat, false));
        lemma_block_body(ls, start, start, stop);
    }
}

proof fn lemma_newlines_joined(parts: Seq<Seq<char>>)
    requires
        parts.len() > 0,
        without_char(parts, '\n'),
    ensures
        newlines(joined(parts, "\n"@)) == parts.len() - 1,
    decreases parts.len(),
{
    assert(parts.last() == parts[parts.len() - 1]);
    assert forall|j: int| 0 <= j < parts.last().len() implies parts.last()[j] != '\n' by {
        assert(parts[parts.len() - 1][j] != '\n');
    }
    crate::text::lemma_no_newlines(parts.last());
    if parts.len() > 1 {
        let d = parts.drop_last();
        assert forall|i: int, j: int| 0 <= i < d.len() && 0 <= j < d[i].len() implies #[trigger] d[i][j] != '\n' by {
            assert(d[i] == parts[i]);
        }
        lemma_newlines_joined(d);
        reveal_strlit("\n");
        assert("\n"@ =~= seq!['\n']);
        law_newlines(joined(d, "\n"@), "\n"@, '\n');
        law_newlines(joined(d, "\n"@) + "\n"@, parts.last(), '\n');
    }
}

/// The size of a function in lines is how many line ends lie between its first and its last line,
/// both of which are lines of the text.
pub proof fn law_function_has_its_lines(ls: Seq<Seq<char>>, i: int, ext: Seq<char>, name: Seq<char>)
    requires
        0 <= i < ls.len(),
        without_char(ls, '\n'),
    ensures
        ({
            let f = function_on(ls, i, ext, name);
            &&& f.name == name
            &&& f.start_line == i + 1
            &&& f.start_line <= f.end_line <= ls.len()
            &&& f.lines == f.end_line - f.start_line
            &&& f.chars == joined(ls.subrange(i, f.end_line), "\n"@).len()
        }),
{
    law_body_ends(ls, i, ext);
    let e = body_last(ls, i, ext);
    let part = ls.subrange(i, e + 1);
    assert forall|a: int, b: int| 0 <= a < part.len() && 0 <= b < part[a].len() implies #[trigger] part[a][b]
        != '\n' by {
        assert(part[a] == ls[i + a]);
    }
    lemma_newlines_joined(part);
}

proof fn lemma_function_uses(content: Seq<char>, fs: Seq<FunctionText>)
    ensures
        ({
            let m = function_uses(content, fs);
            &&& forall|k: int|
                0 <= k < fs.len() && count_of(content, (#[trigger] fs[k]).name) > 0 ==> m.dom().contains(
                    fs[k].name,
                )
            &&& forall|n: Seq<char>| #[trigger]
                m.dom().contains(n) ==> count_of(content, n) > 0 && m[n] == uses_of(content, n) && exists|k: int|
                    0 <= k < fs.len() && (#[trigger] fs[k]).name == n
        }),
    decreases fs.len(),
{
    if fs.len() > 0 {
        let d = fs.drop_last();
        lemma_function_uses(content, d);
        let m = function_uses(content, fs);
        let earlier = function_uses(content, d);
        assert forall|k: int| 0 <= k < fs.len() && count_of(content, (#[trigger] fs[k]).name) > 0 implies m.dom(
        ).contains(fs[k].name) by {
            if k < d.len() {
                assert(d[k] == fs[k]);
            }
        }
        assert forall|n: Seq<char>| #[trigger] m.dom().contains(n) implies count_of(content, n) > 0 && m[n]
            == uses_of(content, n) && exists|k: int| 0 <= k < fs.len() && (#[trigger] fs[k]).name == n by {
            if earlier.dom().contains(n) {
                let k = choose|k: int| 0 <= k < d.len() && (#[trigger] d[k]).name == n;
                assert(fs[k].name == n);
            } else {
                assert(fs[fs.len() - 1].name == n);
            }
        }
    }
}

/// Every function and every type that is named in a text is counted, a type by the last word of
/// its name; what is counted is one of them, and is named.
pub proof fn law_every_use_is_counted(content: Seq<char>, fs: Seq<FunctionText>, cs: Seq<ClassText>)
    ensures
        ({
            let m = all_uses(content, fs, cs);
            &&& forall|k: int|
                0 <= k < fs.len() && count_of(content, (#[trigger] fs[k]).name) > 0 ==> m.dom().contains(
                    fs[k].name,
                )
            &&& forall|k: int|
                0 <= k < cs.len() && count_of(content, simple_name((#[trigger] cs[k]).name)) > 0
                    ==> m.dom().contains(cs[k].name) && m[cs[k].name] == uses_of(
                    content,
                    simple_name(cs[k].name),
                )
            &&& forall|n: Seq<char>| #[trigger]
                m.dom().contains(n) ==> (exists|k: int| 0 <= k < cs.len() && (#[trigger] cs[k]).name == n) || ((
                exists|k: int| 0 <= k < fs.len() && (#[trigger] fs[k]).name == n) && m[n] == uses_of(
                    content,
                    n,
                ) && count_of(content, n) > 0)
        }),
    decreases cs.len(),
{
    lemma_function_uses(content, fs);
    if cs.len() > 0 {
        let d = cs.drop_last();
        law_every_use_is_counted(content, fs, d);
        let m = all_uses(content, fs, cs);
        let earlier = all_uses(content, fs, d);
        let last = cs.last();
        assert forall|k: int|
            0 <= k < cs.len() && count_of(content, simple_name((#[trigger] cs[k]).name)) > 0 implies m.dom().contains(
            cs[k].name,
        ) && m[cs[k].name] == uses_of(content, simple_name(cs[k].name)) by {
            if k < d.len() {
                assert(d[k] == cs[k]);
            }
        }
        assert forall|n: Seq<char>| #[trigger] m.dom().contains(n) implies (exists|k: int|
            0 <= k < cs.len() && (#[trigger] cs[k]).name == n) || ((exists|k: int|
            0 <= k < fs.len() && (#[trigger] fs[k]).name == n) && m[n] == uses_of(content, n) && count_of(
            content,
            n,
        ) > 0) by {
            if n == last.name {
                assert(cs[cs.len() - 1].name == n);
            } else {
                assert(earlier.dom().contains(n));
                if exists|k: int| 0 <= k < d.len() && (#[trigger] d[k]).name == n {
                    let k = choose|k: int| 0 <= k < d.len() && (#[trigger] d[k]).name == n;
                    assert(cs[k].name == n);
                }
            }
        }
    }
}

} // verus!
