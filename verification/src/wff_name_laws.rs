//! What functions and structs are called in a list of blocks, said of the lines that declare them.

use vstd::prelude::*;
use crate::text::{find_from, is_space, occurs, occurs_at, trimmed};
use crate::text_laws::{all_space, law_found_first, law_trimmed};
use crate::unicode::alphanumeric;
use crate::wff::{function_head, leading_ident, second_piece, struct_head};
use crate::wff_laws::law_leading_ident;

verus! {

/// Whether a text is a name: letters, digits and underscores, at least one.
pub open spec fn is_name(name: Seq<char>) -> bool {
    &&& name.len() > 0
    &&& forall|i: int|
        0 <= i < name.len() ==> (alphanumeric(#[trigger] name[i]) || name[i] == '_') && !is_space(name[i]) && name[i]
            != '('
}

/// A name behind blanks, and before the end or something that belongs to no name, is what the
/// trimmed text begins with.
proof fn lemma_name_leads(p: Seq<char>, blanks: Seq<char>, name: Seq<char>, q: Seq<char>)
    requires
        is_name(name),
        all_space(blanks, 0, blanks.len() as int),
        p == blanks + name + q,
        q.len() > 0 ==> !alphanumeric(q[0]) && q[0] != '_',
    ensures
        leading_ident(trimmed(p)) == name,
{
    law_trimmed(p);
    let (a, b) = choose|a: int, b: int|
        0 <= a <= b <= p.len() && trimmed(p) == #[trigger] p.subrange(a, b) && all_space(p, 0, a) && all_space(
            p,
            b,
            p.len() as int,
        ) && (a < b ==> !is_space(p[a]) && !is_space(p[b - 1]));
    let n = name.len() as int;
    let z = blanks.len() as int;
    assert(p[z] == name[0]);
    assert(p[z + n - 1] == name[n - 1]);
    assert(a <= z);
    assert(b >= z + n);
    if a < z {
        assert(p[a] == blanks[a]);
    }
    assert(a == z);
    let s = trimmed(p);
    assert forall|i: int| 0 <= i < n implies s[i] == #[trigger] name[i] by {
        assert(p[z + i] == name[i]);
    }
    if s.len() > n {
        assert(s[n] == q[0]);
    }
    law_leading_ident(s);
    let k = leading_ident(s).len() as int;
    if k < n {
        assert(s[k] == name[k]);
    }
    assert(k == n);
    assert(leading_ident(s) =~= name);
}

proof fn lemma_named_behind(t: Seq<char>, w: Seq<char>, name: Seq<char>, rest: Seq<char>)
    requires
        is_name(name),
        !alphanumeric('('),
        w.len() > 0,
        !w.contains('('),
        !occurs(seq![' '] + name, w),
        t == w + seq![' '] + name + seq!['('] + rest,
    ensures
        leading_ident(trimmed(second_piece(t, w))) == name,
        occurs(t, w),
{
    let n = name.len() as int;
    assert(t.subrange(0, w.len() as int) =~= w);
    assert(occurs_at(t, w, 0));
    law_found_first(t, w, 0);
    assert(find_from(t, w, 0) == Some(0int));
    let behind = t.skip(w.len() as int);
    let head = seq![' '] + name;
    assert(behind =~= head + seq!['('] + rest);
    law_found_first(behind, w, 0);
    match find_from(behind, w, 0) {
        Some(b) => {
            assert(occurs_at(behind, w, b));
            if b <= n {
                if b + w.len() <= n + 1 {
                    assert(head.subrange(b, b + w.len()) =~= behind.subrange(b, b + w.len()));
                    assert(occurs_at(head, w, b));
                } else {
                    assert(behind[n + 1] == '(');
                    assert(behind.subrange(b, b + w.len())[n + 1 - b] == '(');
                    assert(w[n + 1 - b] == '(');
                }
                assert(false);
            }
            let p = behind.take(b);
            let q = p.skip(n + 1);
            assert(p =~= head + q);
            if q.len() > 0 {
                assert(q[0] == behind[n + 1]);
            }
            lemma_name_leads(p, seq![' '], name, q);
        },
        None => {
            let q = seq!['('] + rest;
            assert(behind =~= head + q);
            lemma_name_leads(behind, seq![' '], name, q);
        },
    }
}

/// A name holds no word with a blank inside.
proof fn lemma_no_word_with_a_blank(name: Seq<char>, w: Seq<char>, k: int)
    requires
        is_name(name),
        0 < k < w.len(),
        w[k] == ' ',
    ensures
        !occurs(seq![' '] + name, w),
{
    let head = seq![' '] + name;
    if occurs(head, w) {
        let i = choose|i: int| occurs_at(head, w, i);
        assert(head.subrange(i, i + w.len())[k] == ' ');
        assert(head[i + k] == name[i + k - 1]);
        assert(is_space(name[i + k - 1]));
    }
}

/// A function that is declared as public, asynchronous or both is listed as such, and under its name.
/// A line that also holds the words of another such declaration is not spoken of.
pub proof fn law_function_is_named(line: Seq<char>, w: Seq<char>, name: Seq<char>, rest: Seq<char>)
    requires
        is_name(name),
        !alphanumeric('('),
        trimmed(line) == w + seq![' '] + name + seq!['('] + rest,
        w == "pub async fn"@ || (w == "pub fn"@ && !occurs(trimmed(line), "pub async fn"@)) || (w == "async fn"@
            && !occurs(trimmed(line), "pub async fn"@) && !occurs(trimmed(line), "pub fn"@)),
    ensures
        function_head(line) == (name, w != "async fn"@, w != "pub fn"@),
{
    reveal_strlit("pub async fn");
    reveal_strlit("pub fn");
    reveal_strlit("async fn");
    assert("pub async fn"@[3] == ' ' && "pub fn"@[3] == ' ' && "async fn"@[5] == ' ');
    assert("pub async fn"@.len() == 12 && "pub fn"@.len() == 6 && "async fn"@.len() == 8);
    if w == "async fn"@ {
        lemma_no_word_with_a_blank(name, w, 5);
    } else {
        lemma_no_word_with_a_blank(name, w, 3);
    }
    lemma_named_behind(trimmed(line), w, name, rest);
}

/// A function that is declared as neither is listed under its name, unless the name itself holds the
/// word by which functions are found.
pub proof fn law_plain_function_is_named(line: Seq<char>, name: Seq<char>, rest: Seq<char>)
    requires
        is_name(name),
        !alphanumeric('('),
        !occurs(seq![' '] + name, "fn"@),
        trimmed(line) == "fn"@ + seq![' '] + name + seq!['('] + rest,
        !occurs(trimmed(line), "pub async fn"@),
        !occurs(trimmed(line), "pub fn"@),
        !occurs(trimmed(line), "async fn"@),
    ensures
        function_head(line).0 == name,
        !occurs(trimmed(line), "pub"@) ==> !function_head(line).1,
        !occurs(trimmed(line), "async"@) ==> !function_head(line).2,
{
    reveal_strlit("fn");
    reveal_strlit("fn ");
    let t = trimmed(line);
    assert(t.subrange(0, 3) =~= "fn "@);
    assert(occurs_at(t, "fn "@, 0));
    assert(!"fn"@.contains('('));
    lemma_named_behind(t, "fn"@, name, rest);
}

/// A struct is listed under its name, and as public where it is declared so.
pub proof fn law_struct_is_named(line: Seq<char>, name: Seq<char>, rest: Seq<char>)
    requires
        is_name(name),
        rest.len() > 0 ==> !alphanumeric(rest[0]) && rest[0] != '_',
    ensures
        trimmed(line) == "pub struct "@ + name + rest ==> struct_head(line) == Some((true, name)),
        trimmed(line) == "struct "@ + name + rest ==> struct_head(line) == Some((false, name)),
{
    reveal_strlit("pub struct ");
    reveal_strlit("struct ");
    let t = trimmed(line);
    let p = name + rest;
    let none = Seq::<char>::empty();
    assert(p =~= none + name + rest);
    lemma_name_leads(p, none, name, rest);
    if t == "pub struct "@ + name + rest {
        assert(t.subrange(0, 11) =~= "pub struct "@);
        assert(t.skip(11) =~= p);
    }
    if t == "struct "@ + name + rest {
        assert(t.subrange(0, 7) =~= "struct "@);
        assert(t.skip(7) =~= p);
        assert(t[0] == 's');
        if "pub struct "@.is_prefix_of(t) {
            assert(t.subrange(0, 11)[0] == 'p');
        }
    }
}

} // verus!
