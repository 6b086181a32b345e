//! What sorting and keeping first places give, said of the lists.

use vstd::prelude::*;
use crate::ordered::{
    ascending, before, firsts, in_order, lemma_before_irreflexive, lemma_before_total, lemma_before_transitive,
    same_members,
};

verus! {

proof fn lemma_insert(s: Seq<Seq<char>>, key: Seq<char>) -> (t: Seq<Seq<char>>)
    requires
        ascending(s),
    ensures
        ascending(t),
        forall|k: Seq<char>| #[trigger] t.contains(k) <==> s.contains(k) || k == key,
    decreases s.len(),
{
    if s.len() == 0 {
        let t = seq![key];
        assert forall|k: Seq<char>| #[trigger] t.contains(k) <==> s.contains(k) || k == key by {
            if k == key {
                assert(t[0] == k);
            }
        }
        t
    } else if s[0] == key {
        assert(s.contains(key));
        s
    } else {
        let rest = s.drop_first();
        assert forall|i: int, j: int| 0 <= i < j < rest.len() implies before(#[trigger] rest[i], #[trigger] rest[j]) by {
            assert(before(s[i + 1], s[j + 1]));
        }
        lemma_before_total(s[0], key);
        if before(key, s[0]) {
            let t = seq![key] + s;
            assert forall|i: int, j: int| 0 <= i < j < t.len() implies before(#[trigger] t[i], #[trigger] t[j]) by {
                if i == 0 {
                    if j > 1 {
                        assert(before(s[0], s[j - 1]));
                        lemma_before_transitive(key, s[0], s[j - 1]);
                    }
                } else {
                    assert(before(s[i - 1], s[j - 1]));
                }
            }
            assert forall|k: Seq<char>| #[trigger] t.contains(k) <==> s.contains(k) || k == key by {
                if s.contains(k) {
                    let i = choose|i: int| 0 <= i < s.len() && s[i] == k;
                    assert(t[i + 1] == k);
                }
                if k == key {
                    assert(t[0] == k);
                }
                if t.contains(k) {
                    let i = choose|i: int| 0 <= i < t.len() && t[i] == k;
                    if i > 0 {
                        assert(s[i - 1] == k);
                    }
                }
            }
            t
        } else {
            let more = lemma_insert(rest, key);
            let t = seq![s[0]] + more;
            assert forall|i: int, j: int| 0 <= i < j < t.len() implies before(#[trigger] t[i], #[trigger] t[j]) by {
                if i == 0 {
                    let k = t[j];
                    assert(more[j - 1] == k);
                    assert(more.contains(k));
                    if rest.contains(k) {
                        let m = choose|m: int| 0 <= m < rest.len() && rest[m] == k;
                        assert(before(s[0], s[m + 1]));
                    }
                } else {
                    assert(before(more[i - 1], more[j - 1]));
                }
            }
            assert forall|k: Seq<char>| #[trigger] t.contains(k) <==> s.contains(k) || k == key by {
                if t.contains(k) {
                    let i = choose|i: int| 0 <= i < t.len() && t[i] == k;
                    if i == 0 {
                        assert(s[0] == k);
                    } else {
                        assert(more[i - 1] == k);
                        assert(more.contains(k));
                        if rest.contains(k) {
                            let m = choose|m: int| 0 <= m < rest.len() && rest[m] == k;
                            assert(s[m + 1] == k);
                        }
                    }
                }
                if s.contains(k) {
                    let i = choose|i: int| 0 <= i < s.len() && s[i] == k;
                    if i == 0 {
                        assert(t[0] == k);
                    } else {
                        assert(rest[i - 1] == k);
                        assert(rest.contains(k));
                        assert(more.contains(k));
                        let m = choose|m: int| 0 <= m < more.len() && more[m] == k;
                        assert(t[m + 1] == k);
                    }
                }
                if k == key {
                    assert(more.contains(k));
                    let m = choose|m: int| 0 <= m < more.len() && more[m] == k;
                    assert(t[m + 1] == k);
                }
            }
            t
        }
    }
}

proof fn lemma_sorted(list: Seq<Seq<char>>) -> (t: Seq<Seq<char>>)
    ensures
        ascending(t),
        same_members(t, list),
    decreases list.len(),
{
    if list.len() == 0 {
        assert(same_members(list, list));
        list
    } else {
        let d = list.drop_last();
        let s = lemma_sorted(d);
        let t = lemma_insert(s, list.last());
        assert forall|k: Seq<char>| #[trigger] t.contains(k) <==> list.contains(k) by {
            crate::ordered::lemma_push_contains(d, list.last(), k);
            assert(d.push(list.last()) =~= list);
            assert(s.contains(k) <==> d.contains(k));
        }
        t
    }
}

/// A list in order holds what the list holds, each text once, and every text comes before those
/// that follow it.
pub proof fn law_sorted(list: Seq<Seq<char>>)
    ensures
        forall|i: int, j: int|
            0 <= i < j < in_order(list).len() ==> before(#[trigger] in_order(list)[i], #[trigger] in_order(list)[j])
                && in_order(list)[i] != in_order(list)[j],
        forall|k: Seq<char>| #[trigger] in_order(list).contains(k) <==> list.contains(k),
{
    let t = lemma_sorted(list);
    assert(ascending(t) && same_members(t, list));
    let o = in_order(list);
    assert(ascending(o) && same_members(o, list));
    assert forall|i: int, j: int| 0 <= i < j < o.len() implies before(#[trigger] o[i], #[trigger] o[j]) && o[i]
        != o[j] by {
        lemma_before_irreflexive(o[i]);
    }
}

/// Each text is kept at its first place: a text that is there again is dropped, and one that was
/// not there is added at the end.
pub proof fn law_first_places(v: Seq<Seq<char>>, x: Seq<char>)
    ensures
        v.contains(x) ==> firsts(v.push(x)) == firsts(v),
        !v.contains(x) ==> firsts(v.push(x)) == firsts(v).push(x),
{
    assert(v.push(x).drop_last() =~= v);
    lemma_firsts_members(v, x);
}

proof fn lemma_firsts_members(v: Seq<Seq<char>>, x: Seq<char>)
    ensures
        firsts(v).contains(x) <==> v.contains(x),
    decreases v.len(),
{
    if v.len() > 0 {
        let d = v.drop_last();
        lemma_firsts_members(d, x);
        lemma_firsts_members(d, v.last());
        crate::ordered::lemma_push_contains(d, v.last(), x);
        crate::ordered::lemma_push_contains(firsts(d), v.last(), x);
        assert(d.push(v.last()) =~= v);
    }
}

} // verus!
