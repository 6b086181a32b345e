//! File paths as text, with `/` between their parts.

use vstd::prelude::*;
use crate::text::{
    chars_of, index_of, join, joined, lemma_index_of, lemma_index_of_bounds, lemma_joined_first,
    lemma_split_joined, lemma_split_parts, push_text, same, slice_texts, split, split_at_char,
    starts_with, string_of, texts, without_char,
};

verus! {

/// The last part that is neither empty nor `.`.
pub open spec fn last_part(parts: Seq<Seq<char>>) -> Option<Seq<char>>
    decreases parts.len(),
{
    if parts.len() == 0 {
        None
    } else if parts.last().len() == 0 || parts.last() == "."@ {
        last_part(parts.drop_last())
    } else {
        Some(parts.last())
    }
}

/// The name of the file that a path ends in; none where it ends in `..` or has no parts.
pub open spec fn name_of(path: Seq<char>) -> Option<Seq<char>> {
    match last_part(split(path, '/')) {
        Some(n) => if n == ".."@ {
            None
        } else {
            Some(n)
        },
        None => None,
    }
}

/// The position of the last `c` in `s`, or -1.
pub open spec fn last_index(s: Seq<char>, c: char) -> int
    decreases s.len(),
{
    if s.len() == 0 {
        -1
    } else if s.last() == c {
        s.len() - 1
    } else {
        last_index(s.drop_last(), c)
    }
}

/// What follows the last dot of a file name; none where no dot stands after its first character.
pub open spec fn extension_of(name: Seq<char>) -> Option<Seq<char>> {
    if last_index(name, '.') <= 0 {
        None
    } else {
        Some(name.skip(last_index(name, '.') + 1))
    }
}

/// The extension of the file that a path ends in.
pub open spec fn path_extension(path: Seq<char>) -> Option<Seq<char>> {
    match name_of(path) {
        Some(n) => extension_of(n),
        None => None,
    }
}

/// The name of the file that a path ends in.
pub fn file_name(path: &str) -> (r: Option<String>)
    ensures
        match r {
            Some(n) => name_of(path@) == Some(n@),
            None => name_of(path@) is None,
        },
{
    let parts: Vec<String> = split_at_char(path, '/');
    let mut i: usize = parts.len();
    assert(texts(parts@).take(i as int) =~= texts(parts@));
    while i > 0
        invariant
            i <= parts@.len(),
            last_part(texts(parts@).take(i as int)) == last_part(texts(parts@)),
        decreases i,
    {
        let ghost now = texts(parts@).take(i as int);
        assert(now.drop_last() =~= texts(parts@).take(i - 1));
        assert(now.last() == parts@[i - 1]@);
        i -= 1;
        if !parts[i].as_str().is_empty() && !same(parts[i].as_str(), ".") {
            if same(parts[i].as_str(), "..") {
                return None;
            }
            return Some(parts[i].clone());
        }
    }
    None
}

/// The position of the last `c` in `cs`, if any.
pub(crate) fn last_index_of(cs: &[char], c: char) -> (r: Option<usize>)
    ensures
        match r {
            Some(i) => last_index(cs@, c) == i && i < cs@.len(),
            None => last_index(cs@, c) == -1,
        },
{
    let mut i: usize = cs.len();
    assert(cs@.take(i as int) =~= cs@);
    while i > 0
        invariant
            i <= cs@.len(),
            last_index(cs@.take(i as int), c) == last_index(cs@, c),
        decreases i,
    {
        assert(cs@.take(i as int).drop_last() =~= cs@.take(i - 1));
        i -= 1;
        if cs[i] == c {
            return Some(i);
        }
    }
    None
}

/// The extension of the file that a path ends in.
pub fn extension(path: &str) -> (r: Option<String>)
    ensures
        match r {
            Some(e) => path_extension(path@) == Some(e@),
            None => path_extension(path@) is None,
        },
{
    match file_name(path) {
        Some(name) => {
            let cs: Vec<char> = chars_of(name.as_str());
            let n: usize = cs.len();
            match last_index_of(&cs, '.') {
                Some(k) => if k > 0 {
                    assert(cs@.skip(k + 1) =~= cs@.subrange(k + 1, cs@.len() as int));
                    Some(string_of(&cs, k + 1, n))
                } else {
                    None
                },
                None => None,
            }
        },
        None => None,
    }
}

/// Whether a path has the extension `ext`.
pub fn has_extension(path: &str, ext: &str) -> (r: bool)
    ensures
        r == (path_extension(path@) == Some(ext@)),
{
    match extension(path) {
        Some(e) => same(e.as_str(), ext),
        None => false,
    }
}

/// The path `base` with the path `part` behind it; `part` alone where it is absolute.
pub open spec fn pushed(base: Seq<char>, part: Seq<char>) -> Seq<char> {
    if "/"@.is_prefix_of(part) {
        part
    } else if base.len() == 0 || base.last() == '/' {
        base + part
    } else {
        base + "/"@ + part
    }
}

/// The path `base` with the path `part` behind it; `part` alone where it is absolute.
pub fn push_part(base: &str, part: &str) -> (r: String)
    ensures
        r@ == pushed(base@, part@),
{
    if starts_with(part, "/") {
        return part.to_owned();
    }
    let cs: Vec<char> = chars_of(base);
    let mut out: String = base.to_owned();
    if cs.len() > 0 && cs[cs.len() - 1] != '/' {
        out.append("/");
    }
    out.append(part);
    out
}

/// The parts of a path that are neither empty nor `.`.
pub open spec fn named_parts(parts: Seq<Seq<char>>) -> Seq<Seq<char>>
    decreases parts.len(),
{
    if parts.len() == 0 {
        Seq::empty()
    } else if parts.last().len() == 0 || parts.last() == "."@ {
        named_parts(parts.drop_last())
    } else {
        named_parts(parts.drop_last()).push(parts.last())
    }
}

/// The parts that make up a path.
pub open spec fn parts_of(path: Seq<char>) -> Seq<Seq<char>> {
    named_parts(split(path, '/'))
}

/// The parts that make up a path.
pub fn path_parts(path: &str) -> (r: Vec<String>)
    ensures
        texts(r@) == parts_of(path@),
{
    let all: Vec<String> = split_at_char(path, '/');
    let ghost parts = texts(all@);
    let mut out: Vec<String> = Vec::new();
    let mut i: usize = 0;
    assert(texts(out@) =~= Seq::empty());
    while i < all.len()
        invariant
            i <= all@.len(),
            texts(out@) == named_parts(parts.take(i as int)),
        decreases all@.len() - i,
    {
        assert(parts.take(i + 1).drop_last() =~= parts.take(i as int));
        assert(parts.take(i + 1).last() == all@[i as int]@);
        if !all[i].as_str().is_empty() && !same(all[i].as_str(), ".") {
            push_text(&mut out, all[i].as_str());
        }
        i += 1;
    }
    assert(parts.take(i as int) =~= parts);
    out
}

/// Whether a piece of a path names nothing: it is empty or `.`.
pub open spec fn is_idle(piece: Seq<char>) -> bool {
    piece.len() == 0 || piece == "."@
}

fn idles(piece: &str) -> (r: bool)
    ensures
        r == is_idle(piece@),
{
    piece.is_empty() || same(piece, ".")
}

/// The pieces behind the first `n` that name something.
pub open spec fn behind_named(pieces: Seq<Seq<char>>, n: int) -> Seq<Seq<char>>
    decreases pieces.len(),
{
    if n <= 0 || pieces.len() == 0 {
        pieces
    } else if is_idle(pieces[0]) {
        behind_named(pieces.drop_first(), n)
    } else {
        behind_named(pieces.drop_first(), n - 1)
    }
}

/// The pieces without those at the start that name nothing.
pub open spec fn from_named(pieces: Seq<Seq<char>>) -> Seq<Seq<char>>
    decreases pieces.len(),
{
    if pieces.len() > 0 && is_idle(pieces[0]) {
        from_named(pieces.drop_first())
    } else {
        pieces
    }
}

/// The pieces without those at the end that name nothing.
pub open spec fn to_named(pieces: Seq<Seq<char>>) -> Seq<Seq<char>>
    decreases pieces.len(),
{
    if pieces.len() > 0 && is_idle(pieces.last()) {
        to_named(pieces.drop_last())
    } else {
        pieces
    }
}

/// Whether a path begins at the root of the file system.
pub open spec fn is_rooted(path: Seq<char>) -> bool {
    path.len() > 0 && path[0] == '/'
}

/// Whether a path begins with `.`, the current directory.
pub open spec fn is_here(path: Seq<char>) -> bool {
    path.len() > 0 && path[0] == '.' && (path.len() == 1 || path[1] == '/')
}

/// Whether a path lies below the directory `root`, or is that directory, by the parts of both.
pub open spec fn is_below(path: Seq<char>, root: Seq<char>) -> bool {
    &&& is_rooted(path) == is_rooted(root)
    &&& is_here(path) == is_here(root)
    &&& parts_of(root).is_prefix_of(parts_of(path))
}

/// A path as it is seen from the directory `root`: what stands behind the parts of the root, where
/// the path lies below it, else the path itself. The root itself is seen as the empty path. Seen
/// from the empty path, a path loses what names nothing at its end alone.
pub open spec fn relative(path: Seq<char>, root: Seq<char>) -> Seq<char> {
    if root.len() == 0 {
        let lead: int = if is_rooted(path) || is_here(path) {
            1
        } else {
            0
        };
        path.take(lead) + joined(to_named(split(path.skip(lead), '/')), "/"@)
    } else if is_below(path, root) {
        joined(
            to_named(from_named(behind_named(split(path, '/'), parts_of(root).len() as int))),
            "/"@,
        )
    } else {
        path
    }
}

fn count_to_named(pieces: &[String], from: usize) -> (r: usize)
    requires
        from <= pieces@.len(),
    ensures
        from <= r <= pieces@.len(),
        to_named(texts(pieces@).skip(from as int)) == texts(pieces@).subrange(from as int, r as int),
{
    let ghost all = texts(pieces@);
    let mut hi: usize = pieces.len();
    assert(all.skip(from as int) =~= all.subrange(from as int, hi as int));
    while hi > from && idles(pieces[hi - 1].as_str())
        invariant
            from <= hi <= pieces@.len(),
            to_named(all.subrange(from as int, hi as int)) == to_named(all.skip(from as int)),
        decreases hi,
    {
        assert(all.subrange(from as int, hi as int).last() == pieces@[hi - 1]@);
        assert(all.subrange(from as int, hi as int).drop_last() =~= all.subrange(
            from as int,
            hi - 1,
        ));
        hi -= 1;
    }
    if hi > from {
        assert(all.subrange(from as int, hi as int).last() == pieces@[hi - 1]@);
    }
    hi
}

fn count_from_named(pieces: &[String], from: usize) -> (r: usize)
    requires
        from <= pieces@.len(),
    ensures
        from <= r <= pieces@.len(),
        texts(pieces@).skip(r as int) == from_named(texts(pieces@).skip(from as int)),
{
    let ghost all = texts(pieces@);
    let mut lo: usize = from;
    while lo < pieces.len() && idles(pieces[lo].as_str())
        invariant
            from <= lo <= pieces@.len(),
            from_named(all.skip(lo as int)) == from_named(all.skip(from as int)),
        decreases pieces@.len() - lo,
    {
        assert(all.skip(lo as int)[0] == pieces@[lo as int]@);
        assert(all.skip(lo as int).drop_first() =~= all.skip(lo + 1));
        lo += 1;
    }
    if lo < pieces.len() {
        assert(all.skip(lo as int)[0] == pieces@[lo as int]@);
    }
    lo
}

fn count_behind_named(pieces: &[String], n: usize) -> (r: usize)
    ensures
        r <= pieces@.len(),
        texts(pieces@).skip(r as int) == behind_named(texts(pieces@), n as int),
{
    let ghost all = texts(pieces@);
    let mut k: usize = 0;
    let mut left: usize = n;
    assert(all.skip(0) =~= all);
    while left > 0 && k < pieces.len()
        invariant
            k <= pieces@.len(),
            behind_named(all.skip(k as int), left as int) == behind_named(all, n as int),
        decreases pieces@.len() - k,
    {
        assert(all.skip(k as int)[0] == pieces@[k as int]@);
        assert(all.skip(k as int).drop_first() =~= all.skip(k + 1));
        if !idles(pieces[k].as_str()) {
            left -= 1;
        }
        k += 1;
    }
    k
}

fn begins_with_parts(parts: &[String], base: &[String]) -> (r: bool)
    ensures
        r == texts(base@).is_prefix_of(texts(parts@)),
{
    if base.len() > parts.len() {
        return false;
    }
    let ghost p = texts(parts@);
    let ghost b = texts(base@);
    let mut i: usize = 0;
    while i < base.len()
        invariant
            i <= base@.len() <= parts@.len(),
            forall|j: int| 0 <= j < i ==> #[trigger] b[j] == p[j],
        decreases base@.len() - i,
    {
        if !same(base[i].as_str(), parts[i].as_str()) {
            assert(b[i as int] != p[i as int]);
            assert(p.subrange(0, b.len() as int)[i as int] == p[i as int]);
            return false;
        }
        assert(b[i as int] == p[i as int]);
        i += 1;
    }
    assert(b =~= p.subrange(0, b.len() as int));
    true
}

fn roots(cs: &[char]) -> (r: bool)
    ensures
        r == is_rooted(cs@),
{
    cs.len() > 0 && cs[0] == '/'
}

fn begins_here(cs: &[char]) -> (r: bool)
    ensures
        r == is_here(cs@),
{
    cs.len() > 0 && cs[0] == '.' && (cs.len() == 1 || cs[1] == '/')
}

/// A path as it is seen from the directory `root`.
pub fn relative_to(path: &str, root: &str) -> (r: String)
    ensures
        r@ == relative(path@, root@),
{
    let cs: Vec<char> = chars_of(path);
    let rs: Vec<char> = chars_of(root);
    if rs.len() == 0 {
        let lead: usize = if roots(&cs) || begins_here(&cs) {
            1
        } else {
            0
        };
        let mut out: String = string_of(&cs, 0, lead);
        assert(out@ =~= path@.take(lead as int));
        let body: String = string_of(&cs, lead, cs.len());
        assert(body@ =~= path@.skip(lead as int));
        let pieces: Vec<String> = split_at_char(body.as_str(), '/');
        let hi: usize = count_to_named(&pieces, 0);
        assert(texts(pieces@).skip(0) =~= texts(pieces@));
        let kept: Vec<String> = slice_texts(&pieces, 0, hi);
        assert(texts(kept@) =~= texts(pieces@).subrange(0, hi as int));
        out.append(join(&kept, "/").as_str());
        return out;
    }
    let base: Vec<String> = path_parts(root);
    assert(texts(base@).len() == base@.len());
    if roots(&cs) != roots(&rs) || begins_here(&cs) != begins_here(&rs) || !begins_with_parts(
        &path_parts(path),
        &base,
    ) {
        return path.to_owned();
    }
    let pieces: Vec<String> = split_at_char(path, '/');
    let behind: usize = count_behind_named(&pieces, base.len());
    let lo: usize = count_from_named(&pieces, behind);
    let hi: usize = count_to_named(&pieces, lo);
    let kept: Vec<String> = slice_texts(&pieces, lo, hi);
    assert(texts(kept@) =~= texts(pieces@).subrange(lo as int, hi as int));
    join(&kept, "/")
}

/// A path written by its parts alone: without a root, and with one slash between two of them.
pub open spec fn normalized(path: Seq<char>) -> Seq<char> {
    joined(parts_of(path), "/"@)
}

/// A path written by its parts alone.
pub fn normalize_path(path: &str) -> (r: String)
    ensures
        r@ == normalized(path@),
{
    join(&path_parts(path), "/")
}

proof fn lemma_named_parts(parts: Seq<Seq<char>>)
    requires
        without_char(parts, '/'),
    ensures
        without_char(named_parts(parts), '/'),
        forall|i: int|
            0 <= i < named_parts(parts).len() ==> (#[trigger] named_parts(parts)[i]).len() > 0
                && named_parts(parts)[i] != "."@,
    decreases parts.len(),
{
    if parts.len() > 0 {
        lemma_named_parts(parts.drop_last());
    }
}

proof fn lemma_all_named(parts: Seq<Seq<char>>)
    requires
        forall|i: int|
            0 <= i < parts.len() ==> (#[trigger] parts[i]).len() > 0 && parts[i] != "."@,
    ensures
        named_parts(parts) == parts,
    decreases parts.len(),
{
    if parts.len() > 0 {
        lemma_all_named(parts.drop_last());
        assert(parts =~= parts.drop_last().push(parts.last()));
    }
}

/// A path that is written by its parts alone stays as it is.
pub proof fn law_normalized_once(path: Seq<char>)
    ensures
        normalized(normalized(path)) == normalized(path),
        parts_of(normalized(path)) == parts_of(path),
{
    let parts = parts_of(path);
    lemma_split_parts(path, '/');
    lemma_named_parts(split(path, '/'));
    reveal_strlit("/");
    assert("/"@ =~= seq!['/']);
    if parts.len() == 0 {
        assert(normalized(path) =~= Seq::empty());
        let none = normalized(path);
        assert(split(none, '/') =~= seq![none]);
        assert(seq![none].last() == none);
        assert(seq![none].drop_last().len() == 0);
        assert(named_parts(seq![none].drop_last()) =~= Seq::empty());
    } else {
        lemma_split_joined(parts, '/');
        lemma_all_named(parts);
    }
}

/// A path that is written by its parts alone does not begin with a slash.
pub proof fn lemma_normalized_start(path: Seq<char>)
    ensures
        normalized(path).len() > 0 ==> normalized(path)[0] != '/',
{
    let parts = parts_of(path);
    lemma_split_parts(path, '/');
    lemma_named_parts(split(path, '/'));
    if parts.len() > 0 {
        assert(parts[0].len() > 0);
        assert(parts[0][0] != '/');
        if parts.len() > 1 {
            lemma_joined_first(parts, "/"@);
        }
        assert(normalized(path)[0] == parts[0][0]);
    }
}

proof fn lemma_split_last(a: Seq<char>, b: Seq<char>)
    requires
        forall|j: int| 0 <= j < b.len() ==> #[trigger] b[j] != '/',
    ensures
        split(a + seq!['/'] + b, '/').last() == b,
    decreases a.len(),
{
    let s = a + seq!['/'] + b;
    lemma_index_of_bounds(s, '/');
    let k = index_of(s, '/');
    assert(s[a.len() as int] == '/');
    assert(k <= a.len());
    let rest = s.skip(k + 1);
    lemma_split_parts(rest, '/');
    if k == a.len() {
        assert(rest =~= b);
        lemma_index_of(b, '/', b.len() as int);
        assert(split(b, '/') =~= seq![b]);
    } else {
        assert(rest =~= a.skip(k + 1) + seq!['/'] + b);
        lemma_split_last(a.skip(k + 1), b);
    }
    assert(split(s, '/') == seq![s.take(k)] + split(rest, '/'));
    assert(split(s, '/').last() == split(rest, '/').last());
}

/// A name that was put behind a directory is the name of the path.
pub proof fn lemma_pushed_name(dir: Seq<char>, name: Seq<char>)
    requires
        name.len() > 0,
        name != "."@,
        name != ".."@,
        forall|j: int| 0 <= j < name.len() ==> #[trigger] name[j] != '/',
    ensures
        name_of(pushed(dir, name)) == Some(name),
{
    reveal_strlit("/");
    let path = pushed(dir, name);
    assert(!"/"@.is_prefix_of(name)) by {
        if "/"@.is_prefix_of(name) {
            assert(name[0] == "/"@[0]);
        }
    }
    if dir.len() == 0 {
        assert(path =~= name);
        lemma_index_of(name, '/', name.len() as int);
        assert(split(path, '/').last() == name);
    } else if dir.last() == '/' {
        assert(path =~= dir.drop_last() + seq!['/'] + name);
        lemma_split_last(dir.drop_last(), name);
    } else {
        assert("/"@ =~= seq!['/']);
        lemma_split_last(dir, name);
    }
    lemma_split_parts(path, '/');
}

/// What follows a dot in a name is its extension, where no dot follows that and something stands
/// before it.
pub proof fn lemma_extension(stem: Seq<char>, ext: Seq<char>)
    requires
        stem.len() > 0,
        forall|j: int| 0 <= j < ext.len() ==> #[trigger] ext[j] != '.',
    ensures
        extension_of(stem + seq!['.'] + ext) == Some(ext),
{
    let name = stem + seq!['.'] + ext;
    lemma_last_index(name, '.', stem.len() as int);
    assert(name.skip(stem.len() as int + 1) =~= ext);
}

proof fn lemma_last_index(s: Seq<char>, c: char, k: int)
    requires
        0 <= k < s.len(),
        s[k] == c,
        forall|j: int| k < j < s.len() ==> s[j] != c,
    ensures
        last_index(s, c) == k,
    decreases s.len(),
{
    if k < s.len() - 1 {
        lemma_last_index(s.drop_last(), c, k);
    }
}

proof fn lemma_named_first(pieces: Seq<Seq<char>>)
    requires
        pieces.len() > 0,
    ensures
        named_parts(pieces) == if is_idle(pieces[0]) {
            named_parts(pieces.drop_first())
        } else {
            seq![pieces[0]] + named_parts(pieces.drop_first())
        },
    decreases pieces.len(),
{
    if pieces.len() == 1 {
        assert(pieces.drop_first() =~= Seq::empty());
        assert(pieces.drop_last() =~= Seq::empty());
        assert(named_parts(pieces.drop_last()) =~= Seq::empty());
        assert(named_parts(pieces) =~= if is_idle(pieces[0]) {
            Seq::empty()
        } else {
            seq![pieces[0]]
        });
        assert(seq![pieces[0]] + Seq::<Seq<char>>::empty() =~= seq![pieces[0]]);
    } else {
        let rest = pieces.drop_first();
        lemma_named_first(pieces.drop_last());
        assert(pieces.drop_last().drop_first() =~= rest.drop_last());
        assert(rest.last() == pieces.last());
        assert(named_parts(pieces) =~= if is_idle(pieces[0]) {
            named_parts(rest)
        } else {
            seq![pieces[0]] + named_parts(rest)
        });
    }
}

proof fn lemma_behind_named(pieces: Seq<Seq<char>>, n: int)
    requires
        0 <= n <= named_parts(pieces).len(),
    ensures
        named_parts(behind_named(pieces, n)) == named_parts(pieces).skip(n),
        behind_named(pieces, n).is_suffix_of(pieces),
    decreases pieces.len(),
{
    if n == 0 || pieces.len() == 0 {
        assert(named_parts(pieces).skip(0) =~= named_parts(pieces));
        assert(pieces.subrange(0, pieces.len() as int) =~= pieces);
    } else {
        let rest = pieces.drop_first();
        lemma_named_first(pieces);
        if is_idle(pieces[0]) {
            lemma_behind_named(rest, n);
        } else {
            lemma_behind_named(rest, n - 1);
            assert(named_parts(pieces).skip(n) =~= named_parts(rest).skip(n - 1));
        }
        let b = behind_named(pieces, n);
        assert(b =~= rest.subrange(rest.len() - b.len(), rest.len() as int));
        assert(b =~= pieces.subrange(pieces.len() - b.len(), pieces.len() as int));
    }
}

proof fn lemma_from_named(pieces: Seq<Seq<char>>)
    ensures
        named_parts(from_named(pieces)) == named_parts(pieces),
        from_named(pieces).is_suffix_of(pieces),
    decreases pieces.len(),
{
    if pieces.len() > 0 && is_idle(pieces[0]) {
        let rest = pieces.drop_first();
        lemma_named_first(pieces);
        lemma_from_named(rest);
        let b = from_named(pieces);
        assert(b =~= rest.subrange(rest.len() - b.len(), rest.len() as int));
        assert(b =~= pieces.subrange(pieces.len() - b.len(), pieces.len() as int));
    } else {
        assert(pieces.subrange(0, pieces.len() as int) =~= pieces);
    }
}

proof fn lemma_to_named(pieces: Seq<Seq<char>>)
    ensures
        named_parts(to_named(pieces)) == named_parts(pieces),
        to_named(pieces).is_prefix_of(pieces),
    decreases pieces.len(),
{
    if pieces.len() > 0 && is_idle(pieces.last()) {
        lemma_to_named(pieces.drop_last());
        let b = to_named(pieces);
        assert(b =~= pieces.drop_last().subrange(0, b.len() as int));
        assert(b =~= pieces.subrange(0, b.len() as int));
    } else {
        assert(pieces.subrange(0, pieces.len() as int) =~= pieces);
    }
}

/// Seen from a directory that it lies below, a path has the parts that stand behind those of the
/// directory; any other path is seen as it is.
pub proof fn law_relative_by_parts(path: Seq<char>, root: Seq<char>)
    requires
        root.len() > 0,
    ensures
        is_below(path, root) ==> parts_of(relative(path, root)) == parts_of(path).skip(
            parts_of(root).len() as int,
        ),
        !is_below(path, root) ==> relative(path, root) == path,
{
    if is_below(path, root) {
        let pieces = split(path, '/');
        let n = parts_of(root).len() as int;
        let behind = behind_named(pieces, n);
        let from = from_named(behind);
        let kept = to_named(from);
        lemma_behind_named(pieces, n);
        lemma_from_named(behind);
        lemma_to_named(from);
        lemma_split_parts(path, '/');
        let o = pieces.len() - behind.len() + (behind.len() - from.len());
        assert forall|i: int, j: int| 0 <= i < kept.len() && 0 <= j < kept[i].len() implies #[trigger] kept[i][j]
            != '/' by {
            assert(kept[i] == from.subrange(0, kept.len() as int)[i]);
            assert(from[i] == behind.subrange(
                behind.len() - from.len(),
                behind.len() as int,
            )[i]);
            assert(behind[behind.len() - from.len() + i] == pieces.subrange(
                pieces.len() - behind.len(),
                pieces.len() as int,
            )[behind.len() - from.len() + i]);
            assert(kept[i] == pieces[o + i]);
        }
        reveal_strlit("/");
        assert("/"@ =~= seq!['/']);
        if kept.len() == 0 {
            let none = Seq::<char>::empty();
            assert(joined(kept, "/"@) =~= none);
            assert(split(none, '/') =~= seq![none]);
            lemma_named_first(seq![none]);
            assert(seq![none].drop_first() =~= Seq::empty());
            assert(named_parts(kept) =~= Seq::empty());
            assert(parts_of(none) =~= Seq::empty());
        } else {
            lemma_split_joined(kept, '/');
        }
    }
}

} // verus!
