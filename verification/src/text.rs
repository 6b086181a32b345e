//! Text as sequences of characters: the operations that every tool builds on.

use vstd::prelude::*;

verus! {

/// What a list of strings holds.
pub open spec fn texts(v: Seq<String>) -> Seq<Seq<char>> {
    v.map_values(|s: String| s@)
}

/// The text that there may be.
pub open spec fn opt_text(t: Option<String>) -> Option<Seq<char>> {
    match t {
        Some(t) => Some(t@),
        None => None,
    }
}

/// `String::push`: appends one character.
pub assume_specification[ String::push ](s: &mut String, c: char)
    ensures
        final(s)@ == old(s)@.push(c),
;

/// The characters of a text.
pub fn chars_of(s: &str) -> (r: Vec<char>)
    ensures
        r@ == s@,
{
    let mut out: Vec<char> = Vec::new();
    for c in it: s.chars()
        invariant
            out@ == it.seq().take(it.index() as int),
            it.seq() == s@,
    {
        out.push(c);
    }
    out
}

/// The characters of `cs` from `from` up to `to`.
pub fn string_of(cs: &[char], from: usize, to: usize) -> (r: String)
    requires
        from <= to <= cs@.len(),
    ensures
        r@ == cs@.subrange(from as int, to as int),
{
    let mut out: String = String::new();
    let mut i: usize = from;
    while i < to
        invariant
            from <= i <= to <= cs@.len(),
            out@ == cs@.subrange(from as int, i as int),
        decreases to - i,
    {
        out.push(cs[i]);
        i += 1;
    }
    out
}

/// Whether two texts are the same.
pub fn same(a: &str, b: &str) -> (r: bool)
    ensures
        r == (a@ == b@),
{
    a.to_owned() == b.to_owned()
}

/// Whether `p` stands in `s` at position `i`.
pub open spec fn occurs_at(s: Seq<char>, p: Seq<char>, i: int) -> bool {
    0 <= i && i + p.len() <= s.len() && s.subrange(i, i + p.len()) == p
}

/// Whether `p` stands anywhere in `s`.
pub open spec fn occurs(s: Seq<char>, p: Seq<char>) -> bool {
    exists|i: int| occurs_at(s, p, i)
}

pub open spec fn first_at(s: Seq<char>, p: Seq<char>, i: int) -> bool {
    occurs_at(s, p, i) && forall|j: int| j < i ==> !occurs_at(s, p, j)
}

pub(crate) fn slice_at(cs: &[char], ps: &[char], i: usize) -> (r: bool)
    ensures
        r == occurs_at(cs@, ps@, i as int),
{
    if i > cs.len() || ps.len() > cs.len() - i {
        return false;
    }
    let mut k: usize = 0;
    while k < ps.len()
        invariant
            k <= ps@.len(),
            i + ps@.len() <= cs@.len(),
            forall|j: int| 0 <= j < k ==> cs@[i + j] == ps@[j],
        decreases ps@.len() - k,
    {
        if cs[i + k] != ps[k] {
            assert(cs@.subrange(i as int, i + ps@.len())[k as int] != ps@[k as int]);
            return false;
        }
        k += 1;
    }
    assert(cs@.subrange(i as int, i + ps@.len()) =~= ps@);
    true
}

/// The first position of `ps` in `cs` at `start` or later.
pub(crate) fn slice_find(cs: &[char], ps: &[char], start: usize) -> (r: Option<usize>)
    requires
        start <= cs@.len(),
    ensures
        match r {
            Some(i) => start <= i && occurs_at(cs@, ps@, i as int) && forall|j: int|
                start <= j < i ==> !occurs_at(cs@, ps@, j),
            None => forall|j: int| start <= j ==> !occurs_at(cs@, ps@, j),
        },
{
    let mut i: usize = start;
    while i < cs.len()
        invariant
            start <= i <= cs@.len(),
            forall|j: int| start <= j < i ==> !occurs_at(cs@, ps@, j),
        decreases cs@.len() - i,
    {
        if slice_at(cs, ps, i) {
            return Some(i);
        }
        i += 1;
    }
    if slice_at(cs, ps, i) {
        return Some(i);
    }
    None
}

/// The first position of `p` in `s`, counted in characters.
pub fn find(s: &str, p: &str) -> (r: Option<usize>)
    ensures
        match r {
            Some(i) => first_at(s@, p@, i as int),
            None => !occurs(s@, p@),
        },
{
    let cs: Vec<char> = chars_of(s);
    let ps: Vec<char> = chars_of(p);
    slice_find(&cs, &ps, 0)
}

/// Whether `p` stands anywhere in `s`.
pub fn contains(s: &str, p: &str) -> (r: bool)
    ensures
        r == occurs(s@, p@),
{
    match find(s, p) {
        Some(_) => true,
        None => false,
    }
}


/// Whether `s` begins with `p`.
pub fn starts_with(s: &str, p: &str) -> (r: bool)
    ensures
        r == p@.is_prefix_of(s@),
{
    let cs: Vec<char> = chars_of(s);
    let ps: Vec<char> = chars_of(p);
    slice_at(&cs, &ps, 0)
}

/// Whether `s` ends with `p`.
pub fn ends_with(s: &str, p: &str) -> (r: bool)
    ensures
        r == p@.is_suffix_of(s@),
{
    let cs: Vec<char> = chars_of(s);
    let ps: Vec<char> = chars_of(p);
    if ps.len() > cs.len() {
        return false;
    }
    slice_at(&cs, &ps, cs.len() - ps.len())
}

/// What follows the prefix `p` of `s`.
pub fn strip_prefix(s: &str, p: &str) -> (r: Option<String>)
    ensures
        match r {
            Some(t) => p@.is_prefix_of(s@) && t@ == s@.skip(p@.len() as int),
            None => !p@.is_prefix_of(s@),
        },
{
    let cs: Vec<char> = chars_of(s);
    let ps: Vec<char> = chars_of(p);
    if slice_at(&cs, &ps, 0) {
        Some(string_of(&cs, ps.len(), cs.len()))
    } else {
        None
    }
}

/// The position of the first `c` in `s`, or the length of `s` where there is none.
pub open spec fn index_of(s: Seq<char>, c: char) -> int
    decreases s.len(),
{
    if s.len() == 0 || s[0] == c {
        0
    } else {
        1 + index_of(s.drop_first(), c)
    }
}

pub proof fn lemma_index_of(s: Seq<char>, c: char, n: int)
    requires
        0 <= n <= s.len(),
        forall|j: int| 0 <= j < n ==> s[j] != c,
        n < s.len() ==> s[n] == c,
    ensures
        index_of(s, c) == n,
    decreases s.len(),
{
    if n > 0 {
        lemma_index_of(s.drop_first(), c, n - 1);
    }
}

/// `index_of` in the words of its two defining facts.
pub proof fn lemma_index_of_bounds(s: Seq<char>, c: char)
    ensures
        0 <= index_of(s, c) <= s.len(),
        forall|j: int| 0 <= j < index_of(s, c) ==> s[j] != c,
        index_of(s, c) < s.len() ==> s[index_of(s, c)] == c,
    decreases s.len(),
{
    if s.len() > 0 && s[0] != c {
        let t = s.drop_first();
        lemma_index_of_bounds(t, c);
        assert forall|j: int| 0 <= j < index_of(s, c) implies s[j] != c by {
            if j > 0 {
                assert(t[j - 1] == s[j]);
            }
        }
    }
}

/// The position of the first `c` in `cs` at `start` or later, or the length of `cs`.
pub(crate) fn slice_index(cs: &[char], c: char, start: usize) -> (r: usize)
    requires
        start <= cs@.len(),
    ensures
        start <= r <= cs@.len(),
        r == start + index_of(cs@.skip(start as int), c),
{
    let mut i: usize = start;
    while i < cs.len() && cs[i] != c
        invariant
            start <= i <= cs@.len(),
            forall|j: int| start <= j < i ==> cs@[j] != c,
        decreases cs@.len() - i,
    {
        i += 1;
    }
    proof {
        lemma_index_of(cs@.skip(start as int), c, i - start);
    }
    i
}

/// The parts of `s` between its `c`s, as `str::split` gives them.
pub open spec fn split(s: Seq<char>, c: char) -> Seq<Seq<char>>
    decreases s.len(),
    via split_decreases
{
    if index_of(s, c) >= s.len() {
        seq![s]
    } else {
        seq![s.take(index_of(s, c))] + split(s.skip(index_of(s, c) + 1), c)
    }
}

#[via_fn]
proof fn split_decreases(s: Seq<char>, c: char) {
    lemma_index_of_bounds(s, c);
}

/// The parts of `s` between its `c`s.
pub fn split_at_char(s: &str, c: char) -> (r: Vec<String>)
    ensures
        texts(r@) == split(s@, c),
{
    let cs: Vec<char> = chars_of(s);
    let mut out: Vec<String> = Vec::new();
    let mut pos: usize = 0;
    assert(cs@.skip(0) =~= cs@);
    loop
        invariant
            pos <= cs@.len(),
            texts(out@) + split(cs@.skip(pos as int), c) == split(cs@, c),
        decreases cs@.len() - pos,
    {
        let end: usize = slice_index(&cs, c, pos);
        let ghost rest = cs@.skip(pos as int);
        let ghost before = texts(out@);
        proof {
            lemma_index_of_bounds(rest, c);
            assert(rest.take(end - pos) =~= cs@.subrange(pos as int, end as int));
        }
        let part: String = string_of(&cs, pos, end);
        out.push(part);
        assert(texts(out@) =~= before.push(cs@.subrange(pos as int, end as int)));
        if end == cs.len() {
            assert(rest =~= cs@.subrange(pos as int, end as int));
            assert(texts(out@) =~= before + split(rest, c));
            return out;
        }
        assert(rest.skip(end - pos + 1) =~= cs@.skip(end + 1));
        assert(before + split(rest, c) =~= texts(out@) + split(cs@.skip(end + 1), c));
        pos = end + 1;
    }
}

/// A line without the carriage return that may end it.
pub open spec fn strip_return(s: Seq<char>) -> Seq<char> {
    if s.len() > 0 && s.last() == '\r' {
        s.drop_last()
    } else {
        s
    }
}

/// The lines of `s`, as `str::lines` gives them: a line ends at `\n` or `\r\n`, and
/// nothing follows the last line end.
pub open spec fn lines(s: Seq<char>) -> Seq<Seq<char>>
    decreases s.len(),
    via lines_decreases
{
    if s.len() == 0 {
        Seq::empty()
    } else if index_of(s, '\n') >= s.len() {
        seq![s]
    } else {
        seq![strip_return(s.take(index_of(s, '\n')))] + lines(s.skip(index_of(s, '\n') + 1))
    }
}

#[via_fn]
proof fn lines_decreases(s: Seq<char>) {
    lemma_index_of_bounds(s, '\n');
}

/// The lines of `s`.
pub fn lines_of(s: &str) -> (r: Vec<String>)
    ensures
        texts(r@) == lines(s@),
{
    let cs: Vec<char> = chars_of(s);
    let mut out: Vec<String> = Vec::new();
    let mut pos: usize = 0;
    assert(cs@.skip(0) =~= cs@);
    while pos < cs.len()
        invariant
            pos <= cs@.len(),
            texts(out@) + lines(cs@.skip(pos as int)) == lines(cs@),
        decreases cs@.len() - pos,
    {
        let end: usize = slice_index(&cs, '\n', pos);
        let ghost rest = cs@.skip(pos as int);
        let ghost before = texts(out@);
        proof {
            lemma_index_of_bounds(rest, '\n');
            assert(rest.take(end - pos) =~= cs@.subrange(pos as int, end as int));
        }
        if end == cs.len() {
            out.push(string_of(&cs, pos, end));
            assert(rest =~= cs@.subrange(pos as int, end as int));
            assert(texts(out@) =~= before + lines(rest));
            return out;
        }
        let stop: usize = if end > pos && cs[end - 1] == '\r' {
            end - 1
        } else {
            end
        };
        assert(cs@.subrange(pos as int, stop as int) =~= strip_return(
            cs@.subrange(pos as int, end as int),
        ));
        out.push(string_of(&cs, pos, stop));
        assert(rest.skip(end - pos + 1) =~= cs@.skip(end + 1));
        assert(before + lines(rest) =~= texts(out@) + lines(cs@.skip(end + 1)));
        pos = end + 1;
    }
    assert(texts(out@) + lines(cs@.skip(pos as int)) =~= texts(out@));
    out
}

/// The parts one after the other, with `sep` between them, as `join` gives them.
pub open spec fn joined(parts: Seq<Seq<char>>, sep: Seq<char>) -> Seq<char>
    decreases parts.len(),
{
    if parts.len() == 0 {
        Seq::empty()
    } else if parts.len() == 1 {
        parts[0]
    } else {
        joined(parts.drop_last(), sep) + sep + parts.last()
    }
}

/// The parts one after the other, with `sep` between them.
pub fn join(parts: &[String], sep: &str) -> (r: String)
    ensures
        r@ == joined(texts(parts@), sep@),
{
    let mut out: String = String::new();
    let mut i: usize = 0;
    while i < parts.len()
        invariant
            i <= parts@.len(),
            out@ == joined(texts(parts@).take(i as int), sep@),
        decreases parts@.len() - i,
    {
        let ghost now = texts(parts@).take(i + 1);
        assert(now.drop_last() =~= texts(parts@).take(i as int));
        if i > 0 {
            out.append(sep);
        } else {
            assert(out@ + parts@[0]@ =~= parts@[0]@);
        }
        out.append(parts[i].as_str());
        i += 1;
    }
    assert(texts(parts@).take(i as int) =~= texts(parts@));
    out
}

/// Whether Unicode counts `c` as white space (property `White_Space`).
pub open spec fn is_space(c: char) -> bool {
    let u = c as u32;
    ||| 0x09 <= u <= 0x0d
    ||| u == 0x20
    ||| u == 0x85
    ||| u == 0xa0
    ||| u == 0x1680
    ||| 0x2000 <= u <= 0x200a
    ||| u == 0x2028
    ||| u == 0x2029
    ||| u == 0x202f
    ||| u == 0x205f
    ||| u == 0x3000
}

/// Whether Unicode counts `c` as white space.
pub fn is_white(c: char) -> (r: bool)
    ensures
        r == is_space(c),
{
    let u: u32 = c as u32;
    (0x09 <= u && u <= 0x0d) || u == 0x20 || u == 0x85 || u == 0xa0 || u == 0x1680 || (0x2000 <= u
        && u <= 0x200a) || u == 0x2028 || u == 0x2029 || u == 0x202f || u == 0x205f || u == 0x3000
}

/// `s` without the white space before its first other character.
pub open spec fn trimmed_start(s: Seq<char>) -> Seq<char>
    decreases s.len(),
{
    if s.len() > 0 && is_space(s[0]) {
        trimmed_start(s.drop_first())
    } else {
        s
    }
}

/// `s` without the white space after its last other character.
pub open spec fn trimmed_end(s: Seq<char>) -> Seq<char>
    decreases s.len(),
{
    if s.len() > 0 && is_space(s.last()) {
        trimmed_end(s.drop_last())
    } else {
        s
    }
}

/// `s` without the white space at its two ends.
pub open spec fn trimmed(s: Seq<char>) -> Seq<char> {
    trimmed_end(trimmed_start(s))
}

fn start_of(cs: &[char]) -> (i: usize)
    ensures
        i <= cs@.len(),
        cs@.skip(i as int) == trimmed_start(cs@),
{
    let mut i: usize = 0;
    assert(cs@.skip(0) =~= cs@);
    while i < cs.len() && is_white(cs[i])
        invariant
            i <= cs@.len(),
            trimmed_start(cs@.skip(i as int)) == trimmed_start(cs@),
        decreases cs@.len() - i,
    {
        assert(cs@.skip(i as int).drop_first() =~= cs@.skip(i + 1));
        i += 1;
    }
    i
}

fn end_of(cs: &[char], from: usize) -> (i: usize)
    requires
        from <= cs@.len(),
    ensures
        from <= i <= cs@.len(),
        cs@.subrange(from as int, i as int) == trimmed_end(cs@.skip(from as int)),
{
    let mut i: usize = cs.len();
    assert(cs@.skip(from as int) =~= cs@.subrange(from as int, i as int));
    while i > from && is_white(cs[i - 1])
        invariant
            from <= i <= cs@.len(),
            trimmed_end(cs@.subrange(from as int, i as int)) == trimmed_end(cs@.skip(from as int)),
        decreases i,
    {
        assert(cs@.subrange(from as int, i as int).drop_last() =~= cs@.subrange(
            from as int,
            i - 1,
        ));
        i -= 1;
    }
    i
}

/// `s` without leading white space.
pub fn trim_start(s: &str) -> (r: String)
    ensures
        r@ == trimmed_start(s@),
{
    let cs: Vec<char> = chars_of(s);
    let i: usize = start_of(&cs);
    string_of(&cs, i, cs.len())
}

/// `s` without trailing white space.
pub fn trim_end(s: &str) -> (r: String)
    ensures
        r@ == trimmed_end(s@),
{
    let cs: Vec<char> = chars_of(s);
    let i: usize = end_of(&cs, 0);
    assert(cs@.skip(0) =~= cs@);
    string_of(&cs, 0, i)
}

/// `s` without white space at its ends.
pub fn trim(s: &str) -> (r: String)
    ensures
        r@ == trimmed(s@),
{
    let cs: Vec<char> = chars_of(s);
    let i: usize = start_of(&cs);
    let j: usize = end_of(&cs, i);
    string_of(&cs, i, j)
}

/// `to` before every character of `s` and at its end.
pub open spec fn interspersed(s: Seq<char>, to: Seq<char>) -> Seq<char>
    decreases s.len(),
{
    if s.len() == 0 {
        to
    } else {
        interspersed(s.drop_last(), to) + seq![s.last()] + to
    }
}

/// `s` with each `from`, searched from the left without overlap, exchanged for `to`, as
/// `str::replace` does it.
pub open spec fn replaced(s: Seq<char>, from: Seq<char>, to: Seq<char>) -> Seq<char>
    decreases s.len(),
{
    if from.len() == 0 {
        interspersed(s, to)
    } else if s.len() == 0 {
        Seq::empty()
    } else if from.is_prefix_of(s) {
        to + replaced(s.skip(from.len() as int), from, to)
    } else {
        seq![s[0]] + replaced(s.drop_first(), from, to)
    }
}

/// How often `from` stands in `s`, searched from the left without overlap, as
/// `str::matches` finds it.
pub open spec fn count_of(s: Seq<char>, from: Seq<char>) -> nat
    decreases s.len(),
{
    if from.len() == 0 {
        s.len() + 1
    } else if s.len() == 0 {
        0
    } else if from.is_prefix_of(s) {
        1 + count_of(s.skip(from.len() as int), from)
    } else {
        count_of(s.drop_first(), from)
    }
}

fn intersperse(cs: &[char], to: &str) -> (r: String)
    ensures
        r@ == interspersed(cs@, to@),
{
    let mut out: String = to.to_owned();
    let mut i: usize = 0;
    assert(cs@.take(0) =~= Seq::<char>::empty());
    while i < cs.len()
        invariant
            i <= cs@.len(),
            out@ == interspersed(cs@.take(i as int), to@),
        decreases cs@.len() - i,
    {
        assert(cs@.take(i + 1).drop_last() =~= cs@.take(i as int));
        out.push(cs[i]);
        out.append(to);
        assert(out@ =~= interspersed(cs@.take(i as int), to@) + seq![cs@[i as int]] + to@);
        i += 1;
    }
    assert(cs@.take(i as int) =~= cs@);
    out
}

/// `s` with each `from` exchanged for `to`.
pub fn replace(s: &str, from: &str, to: &str) -> (r: String)
    ensures
        r@ == replaced(s@, from@, to@),
{
    let cs: Vec<char> = chars_of(s);
    let ps: Vec<char> = chars_of(from);
    if ps.len() == 0 {
        return intersperse(&cs, to);
    }
    let mut out: String = String::new();
    let mut i: usize = 0;
    assert(cs@.skip(0) =~= cs@);
    assert(out@ + replaced(cs@, ps@, to@) =~= replaced(cs@, ps@, to@));
    while i < cs.len()
        invariant
            i <= cs@.len(),
            out@ + replaced(cs@.skip(i as int), ps@, to@) == replaced(cs@, ps@, to@),
        decreases cs@.len() - i,
    {
        let ghost rest = cs@.skip(i as int);
        let ghost before = out@;
        if slice_at(&cs, &ps, i) {
            assert(ps@.is_prefix_of(rest)) by {
                assert(rest.subrange(0, ps@.len() as int) =~= cs@.subrange(
                    i as int,
                    i + ps@.len(),
                ));
            }
            assert(rest.skip(ps@.len() as int) =~= cs@.skip(i + ps@.len()));
            out.append(to);
            assert(out@ + replaced(cs@.skip(i + ps@.len()), ps@, to@) =~= before + replaced(
                rest,
                ps@,
                to@,
            ));
            i += ps.len();
        } else {
            assert(!ps@.is_prefix_of(rest)) by {
                if ps@.is_prefix_of(rest) {
                    assert(rest.subrange(0, ps@.len() as int) =~= cs@.subrange(
                        i as int,
                        i + ps@.len(),
                    ));
                }
            }
            assert(rest.drop_first() =~= cs@.skip(i + 1));
            out.push(cs[i]);
            assert(out@ + replaced(cs@.skip(i + 1), ps@, to@) =~= before + replaced(rest, ps@, to@));
            i += 1;
        }
    }
    assert(out@ + replaced(cs@.skip(i as int), ps@, to@) =~= out@);
    out
}

/// A number, or the largest `usize` where it is larger.
pub open spec fn capped(n: nat) -> nat {
    if n <= usize::MAX {
        n
    } else {
        usize::MAX as nat
    }
}

/// How often `p` stands in `s`, without overlap.
pub fn count(s: &str, p: &str) -> (r: usize)
    ensures
        r == capped(count_of(s@, p@)),
{
    let cs: Vec<char> = chars_of(s);
    let ps: Vec<char> = chars_of(p);
    if ps.len() == 0 {
        return cs.len().saturating_add(1);
    }
    let mut n: usize = 0;
    let mut i: usize = 0;
    assert(cs@.skip(0) =~= cs@);
    while i < cs.len()
        invariant
            i <= cs@.len(),
            n <= i,
            n + count_of(cs@.skip(i as int), ps@) == count_of(cs@, ps@),
        decreases cs@.len() - i,
    {
        let ghost rest = cs@.skip(i as int);
        if slice_at(&cs, &ps, i) {
            assert(rest.subrange(0, ps@.len() as int) =~= cs@.subrange(i as int, i + ps@.len()));
            assert(rest.skip(ps@.len() as int) =~= cs@.skip(i + ps@.len()));
            n += 1;
            i += ps.len();
        } else {
            assert(!ps@.is_prefix_of(rest)) by {
                if ps@.is_prefix_of(rest) {
                    assert(rest.subrange(0, ps@.len() as int) =~= cs@.subrange(
                        i as int,
                        i + ps@.len(),
                    ));
                }
            }
            assert(rest.drop_first() =~= cs@.skip(i + 1));
            i += 1;
        }
    }
    n
}

/// The decimal digit of a number below ten.
pub open spec fn digit(n: nat) -> char {
    (('0' as u32) + n) as char
}

/// A number in decimal notation.
pub open spec fn dec(n: nat) -> Seq<char>
    decreases n,
{
    if n < 10 {
        seq![digit(n)]
    } else {
        dec(n / 10).push(digit(n % 10))
    }
}

fn digit_of(n: u8) -> (c: char)
    requires
        n < 10,
    ensures
        c == digit(n as nat),
{
    (48u8 + n) as char
}

/// A number in decimal notation.
pub fn decimal(n: u64) -> (r: String)
    ensures
        r@ == dec(n as nat),
    decreases n,
{
    if n < 10 {
        let mut out: String = String::new();
        out.push(digit_of(n as u8));
        assert(out@ =~= seq![digit(n as nat)]);
        out
    } else {
        let mut out: String = decimal(n / 10);
        out.push(digit_of((n % 10) as u8));
        out
    }
}

/// `n` times the character `c`.
pub open spec fn repeated(c: char, n: nat) -> Seq<char> {
    Seq::new(n, |i: int| c)
}

/// `n` times the character `c`.
pub fn repeat(c: char, n: usize) -> (r: String)
    ensures
        r@ == repeated(c, n as nat),
{
    let mut out: String = String::new();
    let mut i: usize = 0;
    while i < n
        invariant
            i <= n,
            out@ == repeated(c, i as nat),
        decreases n - i,
    {
        out.push(c);
        i += 1;
    }
    out
}


/// The first position of `p` in `s` at `i` or later.
pub open spec fn find_from(s: Seq<char>, p: Seq<char>, i: int) -> Option<int>
    decreases s.len() - i + 1,
{
    if i + p.len() > s.len() {
        None
    } else if occurs_at(s, p, i) {
        Some(i)
    } else {
        find_from(s, p, i + 1)
    }
}

/// The first position of `ps` in `cs` at `start` or later.
pub(crate) fn find_at(cs: &[char], ps: &[char], start: usize) -> (r: Option<usize>)
    ensures
        match r {
            Some(i) => find_from(cs@, ps@, start as int) == Some(i as int) && start <= i && i
                + ps@.len() <= cs@.len() && occurs_at(cs@, ps@, i as int),
            None => find_from(cs@, ps@, start as int) is None,
        },
{
    let mut i: usize = start;
    while i < cs.len()
        invariant
            start <= i,
            find_from(cs@, ps@, start as int) == find_from(cs@, ps@, i as int),
        decreases cs@.len() - i,
    {
        if slice_at(cs, ps, i) {
            return Some(i);
        }
        i += 1;
    }
    if slice_at(cs, ps, i) {
        return Some(i);
    }
    proof {
        reveal_with_fuel(find_from, 2);
    }
    None
}

/// Where the line begins that position `i` of `s` lies on.
pub open spec fn line_start(s: Seq<char>, i: int) -> int
    decreases i,
{
    if i <= 0 {
        0
    } else if s[i - 1] == '\n' {
        i
    } else {
        line_start(s, i - 1)
    }
}

pub(crate) fn line_start_at(cs: &[char], i: usize) -> (r: usize)
    requires
        i <= cs@.len(),
    ensures
        r == line_start(cs@, i as int),
        r <= i,
{
    let mut k: usize = i;
    while k > 0
        invariant
            k <= i <= cs@.len(),
            line_start(cs@, k as int) == line_start(cs@, i as int),
        decreases k,
    {
        if cs[k - 1] == '\n' {
            return k;
        }
        k -= 1;
    }
    k
}

/// How many line feeds `s` holds.
pub open spec fn newlines(s: Seq<char>) -> nat
    decreases s.len(),
{
    if s.len() == 0 {
        0
    } else {
        newlines(s.drop_last()) + if s.last() == '\n' {
            1nat
        } else {
            0nat
        }
    }
}

/// Two texts hold as many line feeds together as each by itself.
pub proof fn lemma_newlines_join(a: Seq<char>, b: Seq<char>)
    ensures
        newlines(a + b) == newlines(a) + newlines(b),
    decreases b.len(),
{
    if b.len() == 0 {
        assert(a + b =~= a);
    } else {
        lemma_newlines_join(a, b.drop_last());
        assert((a + b).drop_last() =~= a + b.drop_last());
    }
}

/// A text has a line for each line feed, and one more where something follows the last one.
pub proof fn lemma_count_lines(s: Seq<char>)
    ensures
        lines(s).len() == newlines(s) + if s.len() > 0 && s.last() != '\n' {
            1nat
        } else {
            0nat
        },
    decreases s.len(),
{
    lemma_index_of_bounds(s, '\n');
    let k = index_of(s, '\n');
    if s.len() > 0 {
        if k >= s.len() {
            lemma_no_newlines(s);
            assert(s.last() == s[s.len() - 1]);
        } else {
            let head = s.take(k);
            let rest = s.skip(k + 1);
            lemma_count_lines(rest);
            lemma_no_newlines(head);
            assert(s.take(k + 1).drop_last() =~= head);
            assert(s =~= s.take(k + 1) + rest);
            lemma_newlines_join(s.take(k + 1), rest);
            if rest.len() > 0 {
                assert(rest.last() == s.last());
            }
        }
    }
}

/// A text without line feeds holds none.
pub proof fn lemma_no_newlines(s: Seq<char>)
    requires
        forall|i: int| 0 <= i < s.len() ==> s[i] != '\n',
    ensures
        newlines(s) == 0,
    decreases s.len(),
{
    if s.len() > 0 {
        lemma_no_newlines(s.drop_last());
    }
}

pub(crate) fn newlines_before(cs: &[char], i: usize) -> (r: usize)
    requires
        i <= cs@.len(),
    ensures
        r == newlines(cs@.take(i as int)),
        r <= i,
{
    let mut n: usize = 0;
    let mut k: usize = 0;
    while k < i
        invariant
            k <= i <= cs@.len(),
            n <= k,
            n == newlines(cs@.take(k as int)),
        decreases i - k,
    {
        assert(cs@.take(k + 1).drop_last() =~= cs@.take(k as int));
        if cs[k] == '\n' {
            n += 1;
        }
        k += 1;
    }
    n
}

/// Whether `c` is a decimal digit.
pub open spec fn is_digit(c: char) -> bool {
    '0' <= c <= '9'
}

/// The number that a run of decimal digits denotes.
pub open spec fn digits_value(s: Seq<char>) -> nat
    decreases s.len(),
{
    if s.len() == 0 {
        0
    } else {
        digits_value(s.drop_last()) * 10 + (s.last() as u32 - '0' as u32) as nat
    }
}

/// Whether `s` is a run of decimal digits, at least one.
pub open spec fn all_digits(s: Seq<char>) -> bool {
    s.len() > 0 && forall|i: int| 0 <= i < s.len() ==> is_digit(#[trigger] s[i])
}

/// `s` without the `+` that may begin it.
pub open spec fn strip_plus(s: Seq<char>) -> Seq<char> {
    if s.len() > 0 && s[0] == '+' {
        s.drop_first()
    } else {
        s
    }
}

/// The number that a text denotes: decimal digits after an optional `+`.
pub open spec fn number(s: Seq<char>) -> Option<nat> {
    if all_digits(strip_plus(s)) {
        Some(digits_value(strip_plus(s)))
    } else {
        None
    }
}

/// Reads a number, as `str::parse` does: `None` where the text denotes none or one that is too
/// large.
pub fn parse_u64(s: &str) -> (r: Option<u64>)
    ensures
        match number(s@) {
            Some(n) => if n <= u64::MAX {
                r == Some(n as u64)
            } else {
                r is None
            },
            None => r is None,
        },
{
    let cs: Vec<char> = chars_of(s);
    let start: usize = if cs.len() > 0 && cs[0] == '+' {
        1
    } else {
        0
    };
    let ghost d = cs@.skip(start as int);
    assert(d =~= strip_plus(s@));
    if start == cs.len() {
        return None;
    }
    let mut big: bool = false;
    let mut n: u64 = 0;
    let mut i: usize = start;
    while i < cs.len()
        invariant
            start <= i <= cs@.len(),
            forall|j: int| 0 <= j < i - start ==> is_digit(#[trigger] d[j]),
            !big ==> n == digits_value(d.take(i - start)),
            big ==> digits_value(d.take(i - start)) > u64::MAX,
        decreases cs@.len() - i,
    {
        let c: char = cs[i];
        assert(d[i - start] == c);
        if c < '0' || c > '9' {
            return None;
        }
        let v: u64 = (c as u32 - 48) as u64;
        assert(d.take(i - start + 1).drop_last() =~= d.take(i - start));
        if !big {
            if n > (u64::MAX - v) / 10 {
                assert(n * 10 + v > u64::MAX);
                big = true;
            } else {
                n = n * 10 + v;
            }
        }
        i += 1;
    }
    assert(d.take(i - start) =~= d);
    if big {
        None
    } else {
        Some(n)
    }
}

/// Reads a number that fits a `usize`.
pub fn parse_usize(s: &str) -> (r: Option<usize>)
    ensures
        match number(s@) {
            Some(n) => if n <= usize::MAX {
                r == Some(n as usize)
            } else {
                r is None
            },
            None => r is None,
        },
{
    match parse_u64(s) {
        Some(n) => if n <= usize::MAX as u64 {
            Some(n as usize)
        } else {
            None
        },
        None => None,
    }
}

/// `s` with spaces before it up to `width` characters.
pub open spec fn padded_left(s: Seq<char>, width: nat) -> Seq<char> {
    if s.len() >= width {
        s
    } else {
        repeated(' ', (width - s.len()) as nat) + s
    }
}

/// `s` with spaces after it up to `width` characters.
pub open spec fn padded_right(s: Seq<char>, width: nat) -> Seq<char> {
    if s.len() >= width {
        s
    } else {
        s + repeated(' ', (width - s.len()) as nat)
    }
}

/// How many characters `s` has.
pub fn char_count(s: &str) -> (r: usize)
    ensures
        r == s@.len(),
{
    chars_of(s).len()
}

/// `s` with spaces before it up to `width` characters.
pub fn pad_left(s: &str, width: usize) -> (r: String)
    ensures
        r@ == padded_left(s@, width as nat),
{
    let n: usize = char_count(s);
    if n >= width {
        return s.to_owned();
    }
    let mut out: String = repeat(' ', width - n);
    out.append(s);
    out
}

/// `s` with spaces after it up to `width` characters.
pub fn pad_right(s: &str, width: usize) -> (r: String)
    ensures
        r@ == padded_right(s@, width as nat),
{
    let n: usize = char_count(s);
    if n >= width {
        return s.to_owned();
    }
    let mut out: String = s.to_owned();
    out.append(repeat(' ', width - n).as_str());
    out
}

/// `s` without the characters `c` that end it.
pub open spec fn without_end(s: Seq<char>, c: char) -> Seq<char>
    decreases s.len(),
{
    if s.len() > 0 && s.last() == c {
        without_end(s.drop_last(), c)
    } else {
        s
    }
}

/// `s` without the characters `c` that end it.
pub fn trim_end_char(s: &str, c: char) -> (r: String)
    ensures
        r@ == without_end(s@, c),
{
    let cs: Vec<char> = chars_of(s);
    let mut i: usize = cs.len();
    assert(cs@.take(i as int) =~= cs@);
    while i > 0 && cs[i - 1] == c
        invariant
            i <= cs@.len(),
            without_end(cs@.take(i as int), c) == without_end(cs@, c),
        decreases i,
    {
        assert(cs@.take(i as int).drop_last() =~= cs@.take(i - 1));
        i -= 1;
    }
    string_of(&cs, 0, i)
}

/// The first `n` characters of `s`, or all of them.
pub fn take_chars(s: &str, n: usize) -> (r: String)
    ensures
        r@ == if n <= s@.len() {
            s@.take(n as int)
        } else {
            s@
        },
{
    let cs: Vec<char> = chars_of(s);
    if n <= cs.len() {
        string_of(&cs, 0, n)
    } else {
        string_of(&cs, 0, cs.len())
    }
}

/// A copy of a list of strings.
pub fn clone_texts(v: &[String]) -> (r: Vec<String>)
    ensures
        texts(r@) == texts(v@),
{
    let mut out: Vec<String> = Vec::new();
    let mut i: usize = 0;
    while i < v.len()
        invariant
            i <= v@.len(),
            texts(out@) == texts(v@).take(i as int),
        decreases v@.len() - i,
    {
        out.push(v[i].clone());
        assert(texts(out@) =~= texts(v@).take(i + 1));
        i += 1;
    }
    out
}

/// The lines of a list from `from` up to `to`.
pub fn slice_texts(v: &[String], from: usize, to: usize) -> (r: Vec<String>)
    requires
        from <= to <= v@.len(),
    ensures
        texts(r@) == texts(v@).subrange(from as int, to as int),
{
    let mut out: Vec<String> = Vec::new();
    let mut i: usize = from;
    while i < to
        invariant
            from <= i <= to <= v@.len(),
            texts(out@) == texts(v@).subrange(from as int, i as int),
        decreases to - i,
    {
        out.push(v[i].clone());
        assert(texts(out@) =~= texts(v@).subrange(from as int, i + 1));
        i += 1;
    }
    out
}

/// Whether two lists hold the same texts.
pub fn same_texts(a: &[String], b: &[String]) -> (r: bool)
    ensures
        r == (texts(a@) == texts(b@)),
{
    if a.len() != b.len() {
        assert(texts(a@).len() != texts(b@).len());
        return false;
    }
    let mut i: usize = 0;
    while i < a.len()
        invariant
            i <= a@.len() == b@.len(),
            forall|j: int| 0 <= j < i ==> a@[j]@ == b@[j]@,
        decreases a@.len() - i,
    {
        if a[i] != b[i] {
            assert(texts(a@)[i as int] != texts(b@)[i as int]);
            return false;
        }
        i += 1;
    }
    assert(texts(a@) =~= texts(b@));
    true
}

/// Whether `s` is one of the texts of `v`.
pub fn contains_text(v: &[String], s: &str) -> (r: bool)
    ensures
        r == texts(v@).contains(s@),
{
    let mut i: usize = 0;
    while i < v.len()
        invariant
            i <= v@.len(),
            forall|j: int| 0 <= j < i ==> v@[j]@ != s@,
        decreases v@.len() - i,
    {
        if same(v[i].as_str(), s) {
            assert(texts(v@)[i as int] == s@);
            return true;
        }
        i += 1;
    }
    assert forall|j: int| 0 <= j < texts(v@).len() implies texts(v@)[j] != s@ by {
        assert(texts(v@)[j] == v@[j]@);
    }
    false
}


/// A text has no more lines than characters.
pub proof fn lemma_lines_len(s: Seq<char>)
    ensures
        lines(s).len() <= s.len(),
        s.len() > 0 ==> lines(s).len() > 0,
    decreases s.len(),
{
    lemma_index_of_bounds(s, '\n');
    if s.len() > 0 && index_of(s, '\n') < s.len() {
        lemma_lines_len(s.skip(index_of(s, '\n') + 1));
    }
}


/// `s` without the characters `c` that begin it.
pub open spec fn without_start(s: Seq<char>, c: char) -> Seq<char>
    decreases s.len(),
{
    if s.len() > 0 && s[0] == c {
        without_start(s.drop_first(), c)
    } else {
        s
    }
}

/// `s` without the characters `c` that begin it.
pub fn trim_start_char(s: &str, c: char) -> (r: String)
    ensures
        r@ == without_start(s@, c),
{
    let cs: Vec<char> = chars_of(s);
    let mut i: usize = 0;
    assert(cs@.skip(0) =~= cs@);
    while i < cs.len() && cs[i] == c
        invariant
            i <= cs@.len(),
            without_start(cs@.skip(i as int), c) == without_start(cs@, c),
        decreases cs@.len() - i,
    {
        assert(cs@.skip(i as int).drop_first() =~= cs@.skip(i + 1));
        i += 1;
    }
    string_of(&cs, i, cs.len())
}


/// How many characters `s` has before its first white space.
pub open spec fn word_len(s: Seq<char>) -> int
    decreases s.len(),
{
    if s.len() == 0 || is_space(s[0]) {
        0
    } else {
        1 + word_len(s.drop_first())
    }
}

proof fn lemma_word_len(s: Seq<char>)
    ensures
        0 <= word_len(s) <= s.len(),
        s.len() > 0 && !is_space(s[0]) ==> word_len(s) > 0,
    decreases s.len(),
{
    if s.len() > 0 && !is_space(s[0]) {
        lemma_word_len(s.drop_first());
    }
}

proof fn lemma_trimmed_start(s: Seq<char>)
    ensures
        trimmed_start(s).len() <= s.len(),
        trimmed_start(s).len() > 0 ==> !is_space(trimmed_start(s)[0]),
    decreases s.len(),
{
    if s.len() > 0 && is_space(s[0]) {
        lemma_trimmed_start(s.drop_first());
    }
}

/// The runs of `s` without white space, as `str::split_whitespace` gives them.
pub open spec fn words(s: Seq<char>) -> Seq<Seq<char>>
    decreases s.len(),
    via words_decreases
{
    let t = trimmed_start(s);
    if t.len() == 0 {
        Seq::empty()
    } else {
        seq![t.take(word_len(t))] + words(t.skip(word_len(t)))
    }
}

#[via_fn]
proof fn words_decreases(s: Seq<char>) {
    lemma_trimmed_start(s);
    lemma_word_len(trimmed_start(s));
}

/// The runs of `s` without white space.
pub fn words_of(s: &str) -> (r: Vec<String>)
    ensures
        texts(r@) == words(s@),
{
    let cs: Vec<char> = chars_of(s);
    let mut out: Vec<String> = Vec::new();
    let mut pos: usize = 0;
    assert(cs@.skip(0) =~= cs@);
    loop
        invariant
            pos <= cs@.len(),
            texts(out@) + words(cs@.skip(pos as int)) == words(cs@),
        decreases cs@.len() - pos,
    {
        let ghost rest = cs@.skip(pos as int);
        let ghost before = texts(out@);
        let mut start: usize = pos;
        while start < cs.len() && is_white(cs[start])
            invariant
                pos <= start <= cs@.len(),
                trimmed_start(cs@.skip(start as int)) == trimmed_start(rest),
            decreases cs@.len() - start,
        {
            assert(cs@.skip(start as int).drop_first() =~= cs@.skip(start + 1));
            start += 1;
        }
        let ghost t = cs@.skip(start as int);
        if start == cs.len() {
            assert(trimmed_start(t) =~= Seq::<char>::empty());
            assert(texts(out@) + words(rest) =~= texts(out@));
            return out;
        }
        assert(trimmed_start(t) == t);
        let mut end: usize = start;
        while end < cs.len() && !is_white(cs[end])
            invariant
                start <= end <= cs@.len(),
                end - start + word_len(cs@.skip(end as int)) == word_len(t),
            decreases cs@.len() - end,
        {
            assert(cs@.skip(end as int).drop_first() =~= cs@.skip(end + 1));
            end += 1;
        }
        proof {
            lemma_word_len(t);
            assert(t.take(end - start) =~= cs@.subrange(start as int, end as int));
            assert(t.skip(end - start) =~= cs@.skip(end as int));
        }
        out.push(string_of(&cs, start, end));
        assert(texts(out@) =~= before.push(cs@.subrange(start as int, end as int)));
        assert(texts(out@) + words(cs@.skip(end as int)) =~= before + words(rest));
        pos = end;
    }
}

/// Whether `c` is one of the characters of `s`.
pub fn has_char(s: &str, c: char) -> (r: bool)
    ensures
        r == s@.contains(c),
{
    let cs: Vec<char> = chars_of(s);
    let mut i: usize = 0;
    while i < cs.len()
        invariant
            i <= cs@.len(),
            forall|j: int| 0 <= j < i ==> cs@[j] != c,
        decreases cs@.len() - i,
    {
        if cs[i] == c {
            return true;
        }
        i += 1;
    }
    false
}

/// What stands in `s` before its first `c`.
pub fn before_char(s: &str, c: char) -> (r: String)
    ensures
        r@ == s@.take(index_of(s@, c)),
{
    let cs: Vec<char> = chars_of(s);
    let n: usize = slice_index(&cs, c, 0);
    assert(cs@.skip(0) =~= cs@);
    string_of(&cs, 0, n)
}


/// What stands in `s` before the first of the characters `stops`.
pub open spec fn until_any(s: Seq<char>, stops: Seq<char>) -> Seq<char>
    decreases s.len(),
{
    if s.len() > 0 && !stops.contains(s[0]) {
        seq![s[0]] + until_any(s.drop_first(), stops)
    } else {
        Seq::empty()
    }
}

/// What stands in `s` before the first of the characters of `stops`.
pub fn take_until_any(s: &str, stops: &str) -> (r: String)
    ensures
        r@ == until_any(s@, stops@),
{
    let cs: Vec<char> = chars_of(s);
    let mut out: String = String::new();
    let mut i: usize = 0;
    assert(cs@.skip(0) =~= cs@);
    assert(out@ + until_any(cs@, stops@) =~= until_any(cs@, stops@));
    while i < cs.len() && !has_char(stops, cs[i])
        invariant
            i <= cs@.len(),
            out@ + until_any(cs@.skip(i as int), stops@) == until_any(cs@, stops@),
        decreases cs@.len() - i,
    {
        let ghost now = out@;
        let ghost rest = cs@.skip(i as int);
        assert(rest.drop_first() =~= cs@.skip(i + 1));
        out.push(cs[i]);
        assert(out@ + until_any(cs@.skip(i + 1), stops@) =~= now + until_any(rest, stops@));
        i += 1;
    }
    assert(out@ + until_any(cs@.skip(i as int), stops@) =~= out@);
    out
}

/// The last of the runs of `s` without white space.
pub fn last_word(s: &str) -> (r: Option<String>)
    ensures
        match r {
            Some(w) => words(s@).len() > 0 && w@ == words(s@).last(),
            None => words(s@).len() == 0,
        },
{
    let ws: Vec<String> = words_of(s);
    let n: usize = ws.len();
    assert(texts(ws@).len() == n);
    if n == 0 {
        None
    } else {
        assert(texts(ws@)[n - 1] == ws@[n - 1]@);
        Some(ws[n - 1].clone())
    }
}

/// Adds a text to a list.
pub(crate) fn push_text(v: &mut Vec<String>, s: &str)
    ensures
        texts(final(v)@) == texts(old(v)@).push(s@),
{
    let t: String = s.to_owned();
    v.push(t);
    assert(texts(v@) =~= texts(old(v)@).push(s@));
}

/// Whether `c` stands in none of the parts.
pub open spec fn without_char(parts: Seq<Seq<char>>, c: char) -> bool {
    forall|i: int, j: int|
        0 <= i < parts.len() && 0 <= j < parts[i].len() ==> #[trigger] parts[i][j] != c
}

/// What stands between two of the separators holds none.
pub proof fn lemma_split_parts(s: Seq<char>, c: char)
    ensures
        without_char(split(s, c), c),
        split(s, c).len() > 0,
    decreases s.len(),
{
    lemma_index_of_bounds(s, c);
    if index_of(s, c) < s.len() {
        let rest = s.skip(index_of(s, c) + 1);
        lemma_split_parts(rest, c);
        let all = split(s, c);
        assert forall|i: int, j: int| 0 <= i < all.len() && 0 <= j < all[i].len() implies #[trigger] all[i][j]
            != c by {
            if i > 0 {
                assert(all[i] == split(rest, c)[i - 1]);
            }
        }
    }
}

/// The first part of parts that were joined, and the others behind it.
pub proof fn lemma_joined_first(parts: Seq<Seq<char>>, sep: Seq<char>)
    requires
        parts.len() >= 2,
    ensures
        joined(parts, sep) == parts[0] + sep + joined(parts.drop_first(), sep),
    decreases parts.len(),
{
    let rest = parts.drop_first();
    if parts.len() == 2 {
        assert(joined(parts.drop_last(), sep) == parts[0]);
        assert(joined(rest, sep) == parts[1]);
    } else {
        lemma_joined_first(parts.drop_last(), sep);
        assert(parts.drop_last().drop_first() =~= rest.drop_last());
        assert(joined(parts, sep) =~= parts[0] + sep + joined(rest, sep));
    }
}

/// Parts that were joined by a character that stands in none of them are what stands between them.
pub proof fn lemma_split_joined(parts: Seq<Seq<char>>, c: char)
    requires
        parts.len() > 0,
        without_char(parts, c),
    ensures
        split(joined(parts, seq![c]), c) == parts,
    decreases parts.len(),
{
    let all = joined(parts, seq![c]);
    if parts.len() == 1 {
        assert forall|j: int| 0 <= j < all.len() implies all[j] != c by {
            assert(parts[0][j] != c);
        }
        lemma_index_of(all, c, all.len() as int);
        assert(parts =~= seq![parts[0]]);
    } else {
        let rest = parts.drop_first();
        lemma_joined_first(parts, seq![c]);
        let n = parts[0].len() as int;
        assert forall|j: int| 0 <= j < n implies all[j] != c by {
            assert(parts[0][j] != c);
        }
        assert(all[n] == c);
        lemma_index_of(all, c, n);
        assert(all.take(n) =~= parts[0]);
        assert(all.skip(n + 1) =~= joined(rest, seq![c]));
        assert forall|i: int, j: int| 0 <= i < rest.len() && 0 <= j < rest[i].len() implies #[trigger] rest[i][j]
            != c by {
            assert(parts[i + 1][j] != c);
        }
        lemma_split_joined(rest, c);
        assert(parts =~= seq![parts[0]] + rest);
    }
}

proof fn lemma_dec(n: nat)
    ensures
        all_digits(dec(n)),
        digits_value(dec(n)) == n,
    decreases n,
{
    let d = digit((n % 10) as nat);
    assert(d as u32 == 48 + n % 10);
    if n < 10 {
        assert(dec(n) =~= seq![d]);
        assert(seq![d].drop_last() =~= Seq::empty());
        assert(digits_value(seq![d].drop_last()) == 0);
    } else {
        lemma_dec(n / 10);
        assert(dec(n).drop_last() =~= dec(n / 10));
        assert(dec(n).last() == d);
        assert forall|i: int| 0 <= i < dec(n).len() implies is_digit(#[trigger] dec(n)[i]) by {
            if i < dec(n / 10).len() {
                assert(dec(n)[i] == dec(n / 10)[i]);
            }
        }
    }
}

/// A number is read back from its decimal notation.
pub proof fn law_decimal_reads_back(n: nat)
    ensures
        number(dec(n)) == Some(n),
        all_digits(dec(n)),
{
    lemma_dec(n);
    assert(is_digit(dec(n)[0]));
}

/// A word: at least one character, and no white space.
pub open spec fn is_word(w: Seq<char>) -> bool {
    w.len() > 0 && forall|i: int| 0 <= i < w.len() ==> !is_space(#[trigger] w[i])
}

proof fn lemma_word_then(w: Seq<char>, rest: Seq<char>)
    requires
        forall|i: int| 0 <= i < w.len() ==> !is_space(#[trigger] w[i]),
        rest.len() == 0 || is_space(rest[0]),
    ensures
        word_len(w + rest) == w.len(),
    decreases w.len(),
{
    if w.len() == 0 {
        assert(w + rest =~= rest);
    } else {
        assert((w + rest).drop_first() =~= w.drop_first() + rest);
        assert forall|i: int| 0 <= i < w.drop_first().len() implies !is_space(
            #[trigger] w.drop_first()[i],
        ) by {
            assert(w.drop_first()[i] == w[i + 1]);
        }
        lemma_word_then(w.drop_first(), rest);
    }
}

/// What `words` gives are words.
pub proof fn lemma_words_are_words(s: Seq<char>)
    ensures
        forall|i: int| 0 <= i < words(s).len() ==> is_word(#[trigger] words(s)[i]),
    decreases s.len(),
{
    let t = trimmed_start(s);
    lemma_trimmed_start(s);
    if t.len() > 0 {
        lemma_word_len(t);
        let k = word_len(t);
        lemma_words_are_words(t.skip(k));
        lemma_word_chars(t);
        assert forall|i: int| 0 <= i < words(s).len() implies is_word(#[trigger] words(s)[i]) by {
            if i == 0 {
                assert(words(s)[0] == t.take(k));
            } else {
                assert(words(s)[i] == words(t.skip(k))[i - 1]);
            }
        }
    }
}

proof fn lemma_word_chars(s: Seq<char>)
    ensures
        forall|i: int| 0 <= i < word_len(s) ==> !is_space(#[trigger] s[i]),
    decreases s.len(),
{
    lemma_word_len(s);
    if s.len() > 0 && !is_space(s[0]) {
        let t = s.drop_first();
        lemma_word_chars(t);
        assert forall|i: int| 0 <= i < word_len(s) implies !is_space(#[trigger] s[i]) by {
            if i > 0 {
                assert(t[i - 1] == s[i]);
            }
        }
    }
}

/// Words with blanks between them are the words of the whole.
pub proof fn lemma_words_joined(ws: Seq<Seq<char>>)
    requires
        forall|i: int| 0 <= i < ws.len() ==> is_word(#[trigger] ws[i]),
    ensures
        words(joined(ws, " "@)) == ws,
    decreases ws.len(),
{
    reveal_strlit(" ");
    let all = joined(ws, " "@);
    if ws.len() == 0 {
        assert(words(all) =~= ws);
    } else if ws.len() == 1 {
        assert(is_word(ws[0]));
        assert(all + Seq::<char>::empty() =~= all);
        lemma_word_then(ws[0], Seq::empty());
        assert(all.take(all.len() as int) =~= all);
        assert(words(all.skip(all.len() as int)) =~= Seq::empty());
        assert(words(all) =~= ws);
    } else {
        let rest = ws.drop_first();
        let more = joined(rest, " "@);
        assert(is_word(ws[0]));
        lemma_joined_first(ws, " "@);
        assert(all =~= ws[0] + (" "@ + more));
        lemma_word_then(ws[0], " "@ + more);
        let n = ws[0].len() as int;
        assert(all.take(n) =~= ws[0]);
        assert(all.skip(n) =~= " "@ + more);
        assert((" "@ + more).drop_first() =~= more);
        assert forall|i: int| 0 <= i < rest.len() implies is_word(#[trigger] rest[i]) by {
            assert(rest[i] == ws[i + 1]);
        }
        lemma_words_joined(rest);
        assert(trimmed_start(" "@ + more) == trimmed_start(more));
        assert(words(" "@ + more) == words(more));
        assert(words(all) =~= seq![ws[0]] + rest);
        assert(ws =~= seq![ws[0]] + rest);
    }
}

/// No line of a text holds a line feed.
pub proof fn lemma_lines_without_feeds(s: Seq<char>)
    ensures
        without_char(lines(s), '\n'),
    decreases s.len(),
{
    lemma_index_of_bounds(s, '\n');
    let k = index_of(s, '\n');
    if s.len() > 0 && k < s.len() {
        let rest = s.skip(k + 1);
        lemma_lines_without_feeds(rest);
        let all = lines(s);
        assert forall|i: int, j: int| 0 <= i < all.len() && 0 <= j < all[i].len() implies #[trigger] all[i][j]
            != '\n' by {
            if i == 0 {
                assert(all[0] == strip_return(s.take(k)));
                assert(all[0][j] == s[j]);
            } else {
                assert(all[i] == lines(rest)[i - 1]);
            }
        }
    }
}

/// Lines that were joined, with or without a line feed behind them, are no more lines than before.
pub proof fn lemma_joined_lines(ls: Seq<Seq<char>>, end: Seq<char>)
    requires
        ls.len() > 0,
        without_char(ls, '\n'),
        end.len() == 0 || end == seq!['\n'],
    ensures
        lines(joined(ls, "\n"@) + end).len() <= ls.len(),
    decreases ls.len(),
{
    reveal_strlit("\n");
    assert("\n"@ =~= seq!['\n']);
    let all = joined(ls, "\n"@) + end;
    let n = ls[0].len() as int;
    assert forall|j: int| 0 <= j < n implies ls[0][j] != '\n' by {}
    if ls.len() == 1 {
        assert forall|j: int| 0 <= j < n implies all[j] != '\n' by {
            assert(all[j] == ls[0][j]);
        }
        lemma_index_of(all, '\n', n);
        if end.len() > 0 {
            assert(lines(all.skip(n + 1)) =~= Seq::empty());
        }
    } else {
        let rest = ls.drop_first();
        lemma_joined_first(ls, "\n"@);
        assert forall|j: int| 0 <= j < n implies all[j] != '\n' by {
            assert(all[j] == ls[0][j]);
        }
        assert(all[n] == '\n');
        lemma_index_of(all, '\n', n);
        assert(all.skip(n + 1) =~= joined(rest, "\n"@) + end);
        assert forall|i: int, j: int| 0 <= i < rest.len() && 0 <= j < rest[i].len() implies #[trigger] rest[i][j]
            != '\n' by {
            assert(ls[i + 1][j] != '\n');
        }
        lemma_joined_lines(rest, end);
    }
}

} // verus!
