//! Places in a text counted in bytes of its UTF-8 encoding.

use vstd::prelude::*;
use vstd::utf8::{decode_utf8, encode_scalar, encode_utf8, encode_utf8_decode_utf8};
use crate::text::{chars_of, string_of};

verus! {

/// How many bytes a text takes.
pub open spec fn byte_len(s: Seq<char>) -> nat {
    encode_utf8(s).len()
}

/// The bytes of two texts are those of both, one after the other.
pub proof fn lemma_encode_concat(a: Seq<char>, b: Seq<char>)
    ensures
        encode_utf8(a + b) == encode_utf8(a) + encode_utf8(b),
    decreases a.len(),
{
    if a.len() == 0 {
        assert(a + b =~= b);
        assert(encode_utf8(a) + encode_utf8(b) =~= encode_utf8(b));
    } else {
        assert((a + b).drop_first() =~= a.drop_first() + b);
        lemma_encode_concat(a.drop_first(), b);
        assert(encode_utf8(a + b) =~= encode_utf8(a) + encode_utf8(b));
    }
}

/// The bytes before a place, and those behind it, make up the whole.
pub proof fn lemma_encode_split(s: Seq<char>, k: int)
    requires
        0 <= k <= s.len(),
    ensures
        encode_utf8(s) == encode_utf8(s.take(k)) + encode_utf8(s.skip(k)),
{
    assert(s =~= s.take(k) + s.skip(k));
    lemma_encode_concat(s.take(k), s.skip(k));
}

/// A character takes from one to four bytes.
pub proof fn lemma_byte_step(s: Seq<char>, k: int)
    requires
        0 <= k < s.len(),
    ensures
        byte_len(s.take(k + 1)) == byte_len(s.take(k)) + encode_scalar(s[k] as u32).len(),
        1 <= encode_scalar(s[k] as u32).len() <= 4,
{
    assert(s.take(k + 1) =~= s.take(k) + seq![s[k]]);
    lemma_encode_concat(s.take(k), seq![s[k]]);
    assert(seq![s[k]].drop_first() =~= Seq::empty());
    assert(encode_utf8(seq![s[k]].drop_first()) =~= Seq::empty());
    assert(encode_utf8(seq![s[k]]) =~= encode_scalar(s[k] as u32));
}

/// Places further on in a text lie behind more bytes.
pub proof fn lemma_byte_order(s: Seq<char>, i: int, j: int)
    requires
        0 <= i <= j <= s.len(),
    ensures
        byte_len(s.take(j)) - byte_len(s.take(i)) >= j - i,
    decreases j,
{
    if i < j {
        lemma_byte_order(s, i, j - 1);
        lemma_byte_step(s, j - 1);
    }
}

/// How many bytes a character takes.
pub fn width(c: char) -> (r: usize)
    ensures
        r == encode_scalar(c as u32).len(),
        1 <= r <= 4,
{
    let n: u32 = c as u32;
    if n <= 0x7f {
        1
    } else if n <= 0x7ff {
        2
    } else if n <= 0xffff {
        3
    } else {
        4
    }
}

/// Whether byte `b` of a text is the first of a character, or its end.
pub open spec fn is_boundary(s: Seq<char>, b: int) -> bool {
    exists|k: int| 0 <= k <= s.len() && #[trigger] byte_len(s.take(k)) == b
}

/// The place in a text that byte `b` begins, if it begins one.
pub fn char_index(cs: &[char], b: usize) -> (r: Option<usize>)
    requires
        byte_len(cs@) <= usize::MAX,
    ensures
        match r {
            Some(k) => k <= cs@.len() && byte_len(cs@.take(k as int)) == b,
            None => !is_boundary(cs@, b as int),
        },
{
    let n: usize = cs.len();
    let mut at: usize = 0;
    let mut k: usize = 0;
    assert(cs@.take(n as int) =~= cs@);
    while at < b && k < n
        invariant
            k <= n,
            at == byte_len(cs@.take(k as int)),
            forall|j: int| 0 <= j < k ==> #[trigger] byte_len(cs@.take(j)) < b,
        decreases n - k,
    {
        proof {
            lemma_byte_step(cs@, k as int);
            lemma_byte_order(cs@, k + 1, n as int);
        }
        at += width(cs[k]);
        k += 1;
    }
    if at == b {
        return Some(k);
    }
    proof {
        assert forall|j: int| 0 <= j <= n implies #[trigger] byte_len(cs@.take(j)) != b by {
            if j >= k {
                lemma_byte_order(cs@, k as int, j);
            }
        }
    }
    None
}

/// The text that the bytes from `from` to `to` of a text are.
pub open spec fn bytes_text(s: Seq<char>, from: int, to: int) -> Seq<char> {
    decode_utf8(encode_utf8(s).subrange(from, to))
}

/// The text between two bytes, where both begin a character or end the text.
pub fn slice_bytes(s: &str, from: usize, to: usize) -> (r: Option<String>)
    ensures
        match r {
            Some(t) => from <= to <= byte_len(s@) && is_boundary(s@, from as int) && is_boundary(
                s@,
                to as int,
            ) && t@ == bytes_text(s@, from as int, to as int) && encode_utf8(t@) == encode_utf8(
                s@,
            ).subrange(from as int, to as int),
            None => !(from <= to && is_boundary(s@, from as int) && is_boundary(s@, to as int)),
        },
{
    let cs: Vec<char> = chars_of(s);
    let _size: usize = s.as_bytes().len();
    if from > to {
        return None;
    }
    match char_index(&cs, from) {
        Some(i) => match char_index(&cs, to) {
            Some(j) => {
                proof {
                    if i > j {
                        lemma_byte_order(s@, j as int, i as int);
                    }
                    let head = s@.take(i as int);
                    let mid = s@.subrange(i as int, j as int);
                    lemma_encode_split(s@, j as int);
                    lemma_encode_split(s@.take(j as int), i as int);
                    assert(s@.take(j as int).take(i as int) =~= head);
                    assert(s@.take(j as int).skip(i as int) =~= mid);
                    assert(encode_utf8(s@).subrange(from as int, to as int) =~= encode_utf8(mid));
                    encode_utf8_decode_utf8(mid);
                }
                Some(string_of(&cs, i, j))
            },
            None => None,
        },
        None => None,
    }
}

} // verus!
