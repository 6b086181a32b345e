//! What is told of a pasted text, said of its lines.

use vstd::prelude::*;
use crate::text::{is_space, lines, trimmed, words};
use crate::text_laws::{all_space, law_trimmed};
use crate::wcp::{
    comment_body, comment_file, content_file, final_word, first_file, function_label, in_name, keyword_label,
    leading_name, line_file, line_owners, looks_like_file, unspaced,
};

verus! {

/// Each line belongs to the function that begins on the last line, up to it, that begins one; to
/// none where no such line does.
pub proof fn law_line_owner(ls: Seq<Seq<char>>, i: int)
    requires
        0 <= i < ls.len(),
    ensures
        line_owners(ls).len() == ls.len(),
        belongs_to(ls, i, line_owners(ls)[i]),
    decreases ls.len(),
{
    let d = ls.drop_last();
    let n = ls.len() - 1;
    let owners = line_owners(ls);
    let earlier = line_owners(d);
    lemma_owner_count(d);
    lemma_owner_count(ls);
    if i < n {
        law_line_owner(d, i);
        assert(owners[i] == earlier[i]);
        lemma_belongs_longer(ls, i, owners[i]);
    } else {
        match function_label(ls.last()) {
            Some(x) => {
                assert(begins(ls, n, x));
            },
            None => {
                if n > 0 {
                    law_line_owner(d, n - 1);
                    lemma_belongs_longer(ls, n - 1, earlier.last());
                    assert(function_label(ls[n]) is None);
                    if exists|k: int| 0 <= k <= n - 1 && #[trigger] begins(ls, k, owners[i]) && is_quiet(
                        ls,
                        k + 1,
                        n - 1,
                    ) {
                        let k = choose|k: int|
                            0 <= k <= n - 1 && #[trigger] begins(ls, k, owners[i]) && is_quiet(
                                ls,
                                k + 1,
                                n - 1,
                            );
                        assert(is_quiet(ls, k + 1, n));
                        assert(begins(ls, k, owners[i]));
                    } else {
                        assert(is_quiet(ls, 0, n));
                    }
                } else {
                    assert(is_quiet(ls, 0, 0));
                }
            },
        }
    }
}

proof fn lemma_owner_count(ls: Seq<Seq<char>>)
    ensures
        line_owners(ls).len() == ls.len(),
    decreases ls.len(),
{
    if ls.len() > 0 {
        lemma_owner_count(ls.drop_last());
    }
}

proof fn lemma_belongs_longer(ls: Seq<Seq<char>>, i: int, name: Seq<char>)
    requires
        0 <= i < ls.len() - 1,
        belongs_to(ls.drop_last(), i, name),
    ensures
        belongs_to(ls, i, name),
{
    let d = ls.drop_last();
    assert forall|k: int| 0 <= k < d.len() implies d[k] == ls[k] by {}
    if exists|k: int| 0 <= k <= i && #[trigger] begins(d, k, name) && is_quiet(d, k + 1, i) {
        let k = choose|k: int| 0 <= k <= i && #[trigger] begins(d, k, name) && is_quiet(d, k + 1, i);
        assert(begins(ls, k, name));
        assert forall|j: int| k + 1 <= j <= i implies function_label(#[trigger] ls[j]) is None by {
            assert(function_label(d[j]) is None);
        }
        assert(is_quiet(ls, k + 1, i));
    } else {
        assert forall|j: int| 0 <= j <= i implies function_label(#[trigger] ls[j]) is None by {
            assert(function_label(d[j]) is None);
        }
        assert(is_quiet(ls, 0, i));
    }
}

/// Whether line `k` begins the function `name`.
pub open spec fn begins(ls: Seq<Seq<char>>, k: int, name: Seq<char>) -> bool {
    function_label(ls[k]) == Some(name)
}

/// Whether none of the lines from `a` to `b` begins a function.
pub open spec fn is_quiet(ls: Seq<Seq<char>>, a: int, b: int) -> bool {
    forall|j: int| a <= j <= b ==> function_label(#[trigger] ls[j]) is None
}

/// Whether `name` is the function that begins last up to line `i`, or stands for none where none
/// does.
pub open spec fn belongs_to(ls: Seq<Seq<char>>, i: int, name: Seq<char>) -> bool {
    ||| exists|k: int| 0 <= k <= i && #[trigger] begins(ls, k, name) && is_quiet(ls, k + 1, i)
    ||| name == "<global>"@ && is_quiet(ls, 0, i)
}

/// The name with which a text begins is all of its characters that can belong to a name, up to the
/// first that cannot.
pub proof fn law_leading_name(s: Seq<char>)
    ensures
        ({
            let n = leading_name(s).len() as int;
            &&& n <= s.len()
            &&& leading_name(s) == s.take(n)
            &&& forall|i: int| 0 <= i < n ==> in_name(#[trigger] s[i])
            &&& n < s.len() ==> !in_name(s[n])
        }),
    decreases s.len(),
{
    if s.len() > 0 && in_name(s[0]) {
        let t = s.drop_first();
        law_leading_name(t);
        let n = leading_name(s).len() as int;
        assert(leading_name(s) =~= s.take(n));
        assert forall|i: int| 0 <= i < n implies in_name(#[trigger] s[i]) by {
            if i > 0 {
                assert(t[i - 1] == s[i]);
            }
        }
        if n < s.len() {
            assert(t[n - 1] == s[n]);
        }
    } else {
        assert(leading_name(s) =~= s.take(0));
    }
}

/// The word with which a text ends is all that stands behind its last white space.
pub proof fn law_final_word(s: Seq<char>)
    ensures
        final_word(s).is_suffix_of(s),
        forall|i: int| s.len() - final_word(s).len() <= i < s.len() ==> !is_space(#[trigger] s[i]),
        final_word(s).len() < s.len() ==> is_space(s[s.len() - final_word(s).len() - 1]),
    decreases s.len(),
{
    if s.len() > 0 && !is_space(s.last()) {
        let d = s.drop_last();
        law_final_word(d);
        let w = final_word(s);
        assert(w =~= s.subrange(s.len() - w.len(), s.len() as int));
        assert forall|i: int| s.len() - w.len() <= i < s.len() implies !is_space(#[trigger] s[i]) by {
            if i < d.len() {
                assert(d[i] == s[i]);
            }
        }
        if w.len() < s.len() {
            assert(d[d.len() - final_word(d).len() - 1] == s[s.len() - w.len() - 1]);
        }
    } else {
        assert(final_word(s) =~= s.subrange(s.len() as int, s.len() as int));
    }
}

/// Whether `k` is one of the words that declare what changes are counted by.
pub open spec fn is_label_word(k: Seq<char>) -> bool {
    k == "fn"@ || k == "pub fn"@ || k == "pub(crate) fn"@ || k == "def"@ || k == "function"@ || k == "class"@
        || k == "impl"@
}

proof fn lemma_one_label(t: Seq<char>, a: Seq<char>, b: Seq<char>)
    requires
        is_label_word(a),
        is_label_word(b),
        (a + " "@).is_prefix_of(t),
        (b + " "@).is_prefix_of(t),
    ensures
        a == b,
{
    reveal_strlit("fn");
    reveal_strlit("pub fn");
    reveal_strlit("pub(crate) fn");
    reveal_strlit("def");
    reveal_strlit("function");
    reveal_strlit("class");
    reveal_strlit("impl");
    reveal_strlit(" ");
    let x = a + " "@;
    let y = b + " "@;
    assert forall|i: int| 0 <= i < x.len() implies x[i] == t[i] by {
        assert(x == t.subrange(0, x.len() as int));
    }
    assert forall|i: int| 0 <= i < y.len() implies y[i] == t[i] by {
        assert(y == t.subrange(0, y.len() as int));
    }
    assert(x[0] == y[0] && x[1] == y[1] && x[2] == y[2]);
    if x.len() > 3 && y.len() > 3 {
        assert(x[3] == y[3]);
    }
}

/// A line that declares a function, a class or an `impl` block is labelled with the word that
/// declares it and the name behind it.
pub proof fn law_declarations_are_labelled(
    line: Seq<char>,
    word: Seq<char>,
    name: Seq<char>,
    rest: Seq<char>,
)
    requires
        is_label_word(word),
        trimmed(line) == word + " "@ + name + rest,
        name.len() > 0,
        forall|i: int| 0 <= i < name.len() ==> in_name(#[trigger] name[i]),
        rest.len() > 0 ==> !in_name(rest[0]),
    ensures
        function_label(line) == Some(word + name),
{
    let t = trimmed(line);
    let k = word + " "@;
    assert(k =~= t.subrange(0, k.len() as int));
    assert(k.is_prefix_of(t));
    let tail = t.skip(k.len() as int);
    assert(tail =~= name + rest);
    law_leading_name(tail);
    let l = leading_name(tail);
    if l.len() < name.len() {
        assert(tail[l.len() as int] == name[l.len() as int]);
    }
    if l.len() > name.len() {
        assert(tail[name.len() as int] == rest[0]);
    }
    assert(l =~= name);
    assert(keyword_label(t, word) == Some(word + name));
    assert forall|w: Seq<char>| is_label_word(w) && w != word implies #[trigger] keyword_label(t, w) is None by {
        if (w + " "@).is_prefix_of(t) {
            lemma_one_label(t, w, word);
        }
    }
    assert(is_label_word("fn"@));
    assert(is_label_word("pub fn"@));
    assert(is_label_word("pub(crate) fn"@));
    assert(is_label_word("def"@));
    assert(is_label_word("function"@));
    assert(is_label_word("class"@));
    assert(is_label_word("impl"@));
    assert("fn"@ != word ==> keyword_label(t, "fn"@) is None);
    assert("pub fn"@ != word ==> keyword_label(t, "pub fn"@) is None);
    assert("pub(crate) fn"@ != word ==> keyword_label(t, "pub(crate) fn"@) is None);
    assert("def"@ != word ==> keyword_label(t, "def"@) is None);
    assert("function"@ != word ==> keyword_label(t, "function"@) is None);
    assert("class"@ != word ==> keyword_label(t, "class"@) is None);
    assert("impl"@ != word ==> keyword_label(t, "impl"@) is None);
}

/// Whether `m` is one of the marks with which comments begin.
pub open spec fn is_mark(m: Seq<char>) -> bool {
    m == "//"@ || m == "#"@ || m == "/*"@ || m == "<!--"@ || m == ";"@ || m == "--"@
}

proof fn lemma_one_mark(t: Seq<char>, a: Seq<char>, b: Seq<char>)
    requires
        is_mark(a),
        is_mark(b),
        a.is_prefix_of(t),
        b.is_prefix_of(t),
    ensures
        a == b,
{
    reveal_strlit("//");
    reveal_strlit("#");
    reveal_strlit("/*");
    reveal_strlit("<!--");
    reveal_strlit(";");
    reveal_strlit("--");
    assert forall|i: int| 0 <= i < a.len() implies a[i] == t[i] by {
        assert(a == t.subrange(0, a.len() as int));
    }
    assert forall|i: int| 0 <= i < b.len() implies b[i] == t[i] by {
        assert(b == t.subrange(0, b.len() as int));
    }
    assert(a[0] == b[0]);
    if a.len() > 1 && b.len() > 1 {
        assert(a[1] == b[1]);
    }
}

proof fn lemma_mark_decides(t: Seq<char>, mark: Seq<char>)
    requires
        is_mark(mark),
        mark.is_prefix_of(t),
    ensures
        forall|m: Seq<char>| is_mark(m) && m != mark ==> #[trigger] comment_file(t, m) is None,
{
    assert forall|m: Seq<char>| is_mark(m) && m != mark implies #[trigger] comment_file(t, m) is None by {
        if m.is_prefix_of(t) {
            lemma_one_mark(t, m, mark);
        }
    }
}

/// A line that is a comment gives the file name that the comment holds, whatever its mark; a line
/// that is none gives no file name.
pub proof fn law_comment_gives_its_file(line: Seq<char>, mark: Seq<char>)
    requires
        is_mark(mark),
        mark.is_prefix_of(trimmed(line)),
    ensures
        line_file(line) == comment_file(trimmed(line), mark),
{
    let t = trimmed(line);
    lemma_mark_decides(t, mark);
    assert(is_mark("//"@) && is_mark("#"@) && is_mark("/*"@) && is_mark("<!--"@) && is_mark(";"@) && is_mark(
        "--"@,
    ));
    assert("//"@ != mark ==> comment_file(t, "//"@) is None);
    assert("#"@ != mark ==> comment_file(t, "#"@) is None);
    assert("/*"@ != mark ==> comment_file(t, "/*"@) is None);
    assert("<!--"@ != mark ==> comment_file(t, "<!--"@) is None);
    assert(";"@ != mark ==> comment_file(t, ";"@) is None);
    assert("--"@ != mark ==> comment_file(t, "--"@) is None);
}

proof fn lemma_first_file(ws: Seq<Seq<char>>, i: int)
    requires
        0 <= i,
    ensures
        match first_file(ws, i) {
            Some(w) => exists|k: int|
                i <= k < ws.len() && #[trigger] ws[k] == w && looks_like_file(w) && forall|j: int|
                    i <= j < k ==> !looks_like_file(#[trigger] ws[j]),
            None => forall|j: int| i <= j < ws.len() ==> !looks_like_file(#[trigger] ws[j]),
        },
    decreases ws.len() - i,
{
    if i < ws.len() && !looks_like_file(ws[i]) {
        lemma_first_file(ws, i + 1);
    }
}

/// A comment whose text is one word with a dot names the file of that word; else it names the
/// first of its words that looks like a file name, and none only where none does.
pub proof fn law_comment_names_a_file(t: Seq<char>, mark: Seq<char>)
    requires
        mark.is_prefix_of(t),
    ensures
        ({
            let body = comment_body(t, mark);
            &&& body.contains('.') && unspaced(body) ==> comment_file(t, mark) == Some(body)
            &&& !(body.contains('.') && unspaced(body)) ==> match comment_file(t, mark) {
                Some(w) => exists|k: int|
                    0 <= k < words(body).len() && #[trigger] words(body)[k] == w && looks_like_file(w)
                        && forall|j: int| 0 <= j < k ==> !looks_like_file(#[trigger] words(body)[j]),
                None => forall|j: int| 0 <= j < words(body).len() ==> !looks_like_file(#[trigger] words(body)[j]),
            }
        }),
{
    lemma_first_file(words(comment_body(t, mark)), 0);
}

/// What a comment says is what stands behind its mark, without the white space around it.
pub proof fn law_comment_body(mark: Seq<char>, gap: Seq<char>, body: Seq<char>)
    requires
        all_space(gap, 0, gap.len() as int),
        body.len() > 0,
        !is_space(body[0]),
        !is_space(body.last()),
        !mark.is_prefix_of(body),
    ensures
        comment_body(mark + gap + body, mark) == body,
{
    let t = mark + gap + body;
    let tail = t.skip(mark.len() as int);
    assert(tail =~= gap + body);
    law_trimmed(tail);
    let (a, b) = choose|a: int, b: int|
        0 <= a <= b <= tail.len() && trimmed(tail) == #[trigger] tail.subrange(a, b) && all_space(tail, 0, a)
            && all_space(tail, b, tail.len() as int) && (a < b ==> !is_space(tail[a]) && !is_space(
            tail[b - 1],
        ));
    let n = gap.len() as int;
    assert(tail[n] == body[0]);
    assert(tail[tail.len() - 1] == body.last());
    assert(a <= n) by {
        if a > n {
            assert(is_space(tail[n]));
        }
    }
    assert(b == tail.len()) by {
        if b < tail.len() {
            assert(is_space(tail[tail.len() - 1]));
        }
    }
    assert(a == n) by {
        if a < n {
            assert(tail[a] == gap[a]);
        }
    }
    assert(tail.subrange(a, b) =~= body);
}

/// The name is looked for on the first line, and on the second one where the first gives none.
pub proof fn law_file_is_named_on_top(content: Seq<char>)
    ensures
        ({
            let ls = lines(content);
            &&& ls.len() > 0 && line_file(ls[0]) is Some ==> content_file(content) == line_file(ls[0])
            &&& ls.len() > 1 && line_file(ls[0]) is None ==> content_file(content) == line_file(ls[1])
            &&& content_file(content) is Some ==> ls.len() > 0 && (content_file(content) == line_file(ls[0]) || (
            ls.len() > 1 && content_file(content) == line_file(ls[1])))
        }),
{
}

} // verus!
