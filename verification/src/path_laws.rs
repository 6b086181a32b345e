//! What the parts of a path are, said of its text.

use vstd::prelude::*;
use crate::path::{
    extension_of, last_index, last_part, name_of, named_parts, parts_of, path_extension, pushed,
};
use crate::sieve::{is_sieved, lemma_sieve_more, lemma_sieve_nothing};
use crate::text::{joined, lemma_split_joined, split};
use crate::text_laws::law_split_is_undone;

verus! {

/// The parts of a path are what stands between its slashes, but for the pieces that are empty or
/// `.`, in order.
pub proof fn law_parts_are_the_pieces(pieces: Seq<Seq<char>>)
    ensures
        is_sieved(
            pieces,
            named_parts(pieces),
            |p: Seq<char>| p.len() > 0 && p != "."@,
            |p: Seq<char>| p,
        ),
    decreases pieces.len(),
{
    let keep = |p: Seq<char>| p.len() > 0 && p != "."@;
    let give = |p: Seq<char>| p;
    let all = named_parts(pieces);
    if pieces.len() == 0 {
        lemma_sieve_nothing(pieces, all, keep, give);
    } else {
        law_parts_are_the_pieces(pieces.drop_last());
        lemma_sieve_more(pieces, named_parts(pieces.drop_last()), all, keep, give);
    }
}

proof fn lemma_last_part(pieces: Seq<Seq<char>>)
    ensures
        last_part(pieces) == if named_parts(pieces).len() > 0 {
            Some(named_parts(pieces).last())
        } else {
            None
        },
    decreases pieces.len(),
{
    if pieces.len() > 0 {
        lemma_last_part(pieces.drop_last());
    }
}

/// The name of a path is the last of its parts; it has none where it has no parts or ends in `..`.
pub proof fn law_name_is_the_last_part(path: Seq<char>)
    ensures
        match name_of(path) {
            Some(n) => parts_of(path).len() > 0 && n == parts_of(path).last() && n != ".."@,
            None => parts_of(path).len() == 0 || parts_of(path).last() == ".."@,
        },
{
    lemma_last_part(split(path, '/'));
}

proof fn lemma_index(s: Seq<char>, c: char)
    ensures
        -1 <= last_index(s, c) < s.len(),
        last_index(s, c) >= 0 ==> s[last_index(s, c)] == c,
        forall|i: int| last_index(s, c) < i < s.len() ==> #[trigger] s[i] != c,
    decreases s.len(),
{
    if s.len() > 0 && s.last() != c {
        let d = s.drop_last();
        lemma_index(d, c);
        assert forall|i: int| last_index(s, c) < i < s.len() implies #[trigger] s[i] != c by {
            if i < d.len() {
                assert(d[i] == s[i]);
            }
        }
    }
}

/// The extension of a name is what follows its last dot, where something stands before that dot;
/// it has none where it has no dot, or none but the one that it begins with.
pub proof fn law_extension(name: Seq<char>)
    ensures
        match extension_of(name) {
            Some(e) => !e.contains('.') && exists|stem: Seq<char>|
                stem.len() > 0 && name == #[trigger] (stem + seq!['.']) + e,
            None => forall|i: int| 0 < i < name.len() ==> #[trigger] name[i] != '.',
        },
{
    lemma_index(name, '.');
    let k = last_index(name, '.');
    if k > 0 {
        let stem = name.take(k);
        let e = name.skip(k + 1);
        assert(name =~= (stem + seq!['.']) + e);
        assert forall|i: int| 0 <= i < e.len() implies e[i] != '.' by {
            assert(e[i] == name[k + 1 + i]);
        }
    }
}

/// The extension of a path is that of its name; a path without a name has none.
pub proof fn law_path_extension(path: Seq<char>)
    ensures
        name_of(path) is None ==> path_extension(path) is None,
        name_of(path) matches Some(n) ==> path_extension(path) == extension_of(n),
{
}

proof fn lemma_named_join(a: Seq<Seq<char>>, b: Seq<Seq<char>>)
    ensures
        named_parts(a + b) == named_parts(a) + named_parts(b),
    decreases b.len(),
{
    if b.len() == 0 {
        assert(a + b =~= a);
        assert(named_parts(a) + named_parts(b) =~= named_parts(a));
    } else {
        let d = b.drop_last();
        lemma_named_join(a, d);
        assert((a + b).drop_last() =~= a + d);
        assert((a + b).last() == b.last());
        assert(named_parts(a + b) =~= named_parts(a) + named_parts(b));
    }
}

proof fn lemma_split_join(a: Seq<char>, b: Seq<char>)
    ensures
        split(a + seq!['/'] + b, '/') == split(a, '/') + split(b, '/'),
{
    let x = split(a, '/');
    let y = split(b, '/');
    law_split_is_undone(a, '/');
    law_split_is_undone(b, '/');
    let all = x + y;
    assert forall|i: int, j: int| 0 <= i < all.len() && 0 <= j < all[i].len() implies #[trigger] all[i][j]
        != '/' by {
        if i < x.len() {
            assert(all[i] == x[i]);
        } else {
            assert(all[i] == y[i - x.len()]);
        }
    }
    lemma_joined_join(x, y);
    lemma_split_joined(all, '/');
}

proof fn lemma_joined_join(x: Seq<Seq<char>>, y: Seq<Seq<char>>)
    requires
        x.len() > 0,
        y.len() > 0,
    ensures
        joined(x + y, seq!['/']) == joined(x, seq!['/']) + seq!['/'] + joined(y, seq!['/']),
    decreases y.len(),
{
    let all = x + y;
    if y.len() == 1 {
        assert(all.drop_last() =~= x);
    } else {
        lemma_joined_join(x, y.drop_last());
        assert(all.drop_last() =~= x + y.drop_last());
        assert(joined(all, seq!['/']) =~= joined(x, seq!['/']) + seq!['/'] + joined(y, seq!['/']));
    }
}

/// A path put behind another one has the parts of both, one after the other; an absolute one stands
/// for itself.
pub proof fn law_pushed_parts(base: Seq<char>, part: Seq<char>)
    ensures
        part.len() > 0 && part[0] == '/' ==> pushed(base, part) == part,
        !(part.len() > 0 && part[0] == '/') ==> parts_of(pushed(base, part)) == parts_of(base) + parts_of(part),
{
    reveal_strlit("/");
    assert("/"@ =~= seq!['/']);
    let slash = seq!['/'];
    if part.len() > 0 && part[0] == '/' {
        assert("/"@ =~= part.subrange(0, 1));
        assert("/"@.is_prefix_of(part));
    } else {
        if "/"@.is_prefix_of(part) {
            assert("/"@ == part.subrange(0, 1));
            assert(part.subrange(0, 1)[0] == part[0]);
        }
        if base.len() == 0 {
            assert(base + part =~= part);
            let none = Seq::<char>::empty();
            assert(base =~= none);
            lemma_no_parts();
            assert(parts_of(base) + parts_of(part) =~= parts_of(part));
        } else if base.last() == '/' {
            let b = base.drop_last();
            assert(base + part =~= b + slash + part);
            lemma_split_join(b, part);
            lemma_named_join(split(b, '/'), split(part, '/'));
            let none = Seq::<char>::empty();
            assert(base =~= b + slash + none);
            lemma_split_join(b, none);
            lemma_named_join(split(b, '/'), split(none, '/'));
            lemma_no_parts();
            assert(parts_of(base) =~= parts_of(b));
        } else {
            lemma_split_join(base, part);
            lemma_named_join(split(base, '/'), split(part, '/'));
        }
    }
}

proof fn lemma_no_parts()
    ensures
        parts_of(Seq::<char>::empty()) == Seq::<Seq<char>>::empty(),
{
    let none = Seq::<char>::empty();
    assert(split(none, '/') =~= seq![none]);
    let one = seq![none];
    assert(one.drop_last() =~= Seq::<Seq<char>>::empty());
    assert(named_parts(one) == named_parts(one.drop_last()));
    assert(named_parts(Seq::<Seq<char>>::empty()) =~= Seq::<Seq<char>>::empty());
}

} // verus!
