//! Texts in their order, and maps that keep their keys in it.

use vstd::prelude::*;
use crate::text::{chars_of, contains_text, push_text, same, texts};

verus! {

/// Whether `a` comes before `b`: at the first character that differs, the smaller one decides; a
/// text comes before those that it begins.
pub open spec fn before(a: Seq<char>, b: Seq<char>) -> bool
    decreases a.len(),
{
    if b.len() == 0 {
        false
    } else if a.len() == 0 {
        true
    } else if a[0] != b[0] {
        a[0] < b[0]
    } else {
        before(a.drop_first(), b.drop_first())
    }
}

pub proof fn lemma_before_irreflexive(a: Seq<char>)
    ensures
        !before(a, a),
    decreases a.len(),
{
    if a.len() > 0 {
        lemma_before_irreflexive(a.drop_first());
    }
}

pub proof fn lemma_before_transitive(a: Seq<char>, b: Seq<char>, c: Seq<char>)
    requires
        before(a, b),
        before(b, c),
    ensures
        before(a, c),
    decreases a.len(),
{
    if a.len() > 0 && a[0] == b[0] && b[0] == c[0] {
        lemma_before_transitive(a.drop_first(), b.drop_first(), c.drop_first());
    }
}

pub proof fn lemma_before_total(a: Seq<char>, b: Seq<char>)
    ensures
        a == b || before(a, b) || before(b, a),
    decreases a.len(),
{
    if a.len() == 0 && b.len() == 0 {
        assert(a =~= b);
    } else if a.len() > 0 && b.len() > 0 && a[0] == b[0] {
        lemma_before_total(a.drop_first(), b.drop_first());
        if a.drop_first() == b.drop_first() {
            assert(a =~= seq![a[0]] + a.drop_first());
            assert(b =~= seq![b[0]] + b.drop_first());
        }
    }
}

/// Whether `a` comes before `b`.
pub fn is_before(a: &str, b: &str) -> (r: bool)
    ensures
        r == before(a@, b@),
{
    let xs: Vec<char> = chars_of(a);
    let ys: Vec<char> = chars_of(b);
    let mut i: usize = 0;
    assert(xs@.skip(0) =~= xs@);
    assert(ys@.skip(0) =~= ys@);
    while i < xs.len() && i < ys.len()
        invariant
            i <= xs@.len(),
            i <= ys@.len(),
            before(xs@.skip(i as int), ys@.skip(i as int)) == before(a@, b@),
        decreases xs@.len() - i,
    {
        assert(xs@.skip(i as int).drop_first() =~= xs@.skip(i + 1));
        assert(ys@.skip(i as int).drop_first() =~= ys@.skip(i + 1));
        if xs[i] != ys[i] {
            return xs[i] < ys[i];
        }
        i += 1;
    }
    i < ys.len()
}

/// Whether each text comes before those that follow it.
pub open spec fn ascending(keys: Seq<Seq<char>>) -> bool {
    forall|i: int, j: int| 0 <= i < j < keys.len() ==> before(#[trigger] keys[i], #[trigger] keys[j])
}

/// Two lists in order that hold the same texts are the same.
pub proof fn law_order_is_unique(a: Seq<Seq<char>>, b: Seq<Seq<char>>)
    requires
        ascending(a),
        ascending(b),
        forall|k: Seq<char>| #[trigger] a.contains(k) <==> b.contains(k),
    ensures
        a == b,
    decreases a.len(),
{
    if a.len() == 0 {
        if b.len() > 0 {
            assert(b.contains(b[0]));
            assert(a.contains(b[0]));
        }
        assert(a =~= b);
    } else {
        assert(a.contains(a.last()));
        assert(b.contains(a.last()));
        assert(b.len() > 0);
        assert(b.contains(b.last()));
        assert(a.contains(b.last()));
        let i = choose|i: int| 0 <= i < a.len() && a[i] == b.last();
        let j = choose|j: int| 0 <= j < b.len() && b[j] == a.last();
        if a.last() != b.last() {
            assert(i < a.len() - 1);
            assert(j < b.len() - 1);
            assert(before(a[i], a[a.len() - 1]));
            assert(before(b[j], b[b.len() - 1]));
            lemma_before_transitive(a.last(), b.last(), a.last());
            lemma_before_irreflexive(a.last());
        }
        let x = a.drop_last();
        let y = b.drop_last();
        assert forall|k: Seq<char>| #[trigger] x.contains(k) <==> y.contains(k) by {
            if x.contains(k) {
                let p = choose|p: int| 0 <= p < x.len() && x[p] == k;
                assert(a[p] == k);
                assert(before(a[p], a[a.len() - 1]));
                lemma_before_irreflexive(k);
                assert(a.contains(k));
                let q = choose|q: int| 0 <= q < b.len() && b[q] == k;
                assert(q != b.len() - 1);
                assert(y[q] == k);
            }
            if y.contains(k) {
                let p = choose|p: int| 0 <= p < y.len() && y[p] == k;
                assert(b[p] == k);
                assert(before(b[p], b[b.len() - 1]));
                lemma_before_irreflexive(k);
                assert(b.contains(k));
                assert(a.contains(k));
                let q = choose|q: int| 0 <= q < a.len() && a[q] == k;
                assert(q != a.len() - 1);
                assert(x[q] == k);
            }
        }
        law_order_is_unique(x, y);
        assert(a =~= x.push(a.last()));
        assert(b =~= y.push(b.last()));
    }
}

/// Where `key` stands in an ascending list, or would stand.
pub fn position(keys: &[String], key: &str) -> (r: (bool, usize))
    requires
        ascending(texts(keys@)),
    ensures
        r.1 <= keys@.len(),
        forall|j: int| 0 <= j < r.1 ==> before(#[trigger] keys@[j]@, key@),
        r.0 ==> r.1 < keys@.len() && keys@[r.1 as int]@ == key@,
        !r.0 ==> forall|j: int| r.1 <= j < keys@.len() ==> before(key@, #[trigger] keys@[j]@),
        r.0 == texts(keys@).contains(key@),
{
    let ghost ks = texts(keys@);
    let mut i: usize = 0;
    while i < keys.len() && is_before(keys[i].as_str(), key)
        invariant
            i <= keys@.len(),
            forall|j: int| 0 <= j < i ==> before(#[trigger] keys@[j]@, key@),
        decreases keys@.len() - i,
    {
        i += 1;
    }
    let found: bool = i < keys.len() && same(keys[i].as_str(), key);
    proof {
        if found {
            assert(ks[i as int] == key@);
        } else {
            if i < keys@.len() {
                lemma_before_total(keys@[i as int]@, key@);
            }
            assert forall|j: int| i <= j < keys@.len() implies before(key@, #[trigger] keys@[j]@) by {
                if j > i {
                    assert(before(ks[i as int], ks[j]));
                    lemma_before_transitive(key@, ks[i as int], ks[j]);
                }
            }
            assert forall|j: int| 0 <= j < ks.len() implies ks[j] != key@ by {
                assert(ks[j] == keys@[j]@);
                lemma_before_irreflexive(key@);
            }
        }
    }
    (found, i)
}

/// The ascending list `keys` with `key` in its place, once.
pub fn insert_text(keys: &mut Vec<String>, key: &str)
    requires
        ascending(texts(old(keys)@)),
    ensures
        ascending(texts(final(keys)@)),
        forall|k: Seq<char>| #[trigger]
            texts(final(keys)@).contains(k) <==> texts(old(keys)@).contains(k) || k == key@,
{
    let (found, i): (bool, usize) = position(keys.as_slice(), key);
    let ghost ks = texts(keys@);
    if !found {
        keys.insert(i, key.to_owned());
        let ghost new = texts(keys@);
        proof {
            lemma_inserted(ks, i as int, key@);
            assert(new =~= ks.insert(i as int, key@));
        }
    } else {
        assert(ks.contains(key@));
    }
}

proof fn lemma_inserted(ks: Seq<Seq<char>>, i: int, key: Seq<char>)
    requires
        ascending(ks),
        0 <= i <= ks.len(),
        forall|j: int| 0 <= j < i ==> before(#[trigger] ks[j], key),
        forall|j: int| i <= j < ks.len() ==> before(key, #[trigger] ks[j]),
    ensures
        ascending(ks.insert(i, key)),
        forall|k: Seq<char>| #[trigger]
            ks.insert(i, key).contains(k) <==> ks.contains(k) || k == key,
{
    let new = ks.insert(i, key);
    assert forall|p: int, q: int| 0 <= p < q < new.len() implies before(
        #[trigger] new[p],
        #[trigger] new[q],
    ) by {
        let a = if p < i {
            p
        } else {
            p - 1
        };
        let b = if q < i {
            q
        } else {
            q - 1
        };
        if p == i {
            assert(new[q] == ks[b]);
        } else if q == i {
            assert(new[p] == ks[a]);
        } else {
            assert(new[p] == ks[a] && new[q] == ks[b]);
        }
    }
    assert forall|k: Seq<char>| #[trigger] new.contains(k) <==> ks.contains(k) || k == key by {
        if ks.contains(k) {
            let p = choose|p: int| 0 <= p < ks.len() && ks[p] == k;
            if p < i {
                assert(new[p] == k);
            } else {
                assert(new[p + 1] == k);
            }
        }
        if k == key {
            assert(new[i] == k);
        }
        if new.contains(k) {
            let p = choose|p: int| 0 <= p < new.len() && new[p] == k;
            if p < i {
                assert(ks[p] == k);
            } else if p > i {
                assert(ks[p - 1] == k);
            }
        }
    }
}

/// Whether two lists hold the same texts.
pub open spec fn same_members(a: Seq<Seq<char>>, b: Seq<Seq<char>>) -> bool {
    forall|k: Seq<char>| #[trigger] a.contains(k) <==> b.contains(k)
}

/// The texts of a list in order, each once.
pub open spec fn in_order(list: Seq<Seq<char>>) -> Seq<Seq<char>> {
    choose|s: Seq<Seq<char>>| ascending(s) && #[trigger] same_members(s, list)
}

/// A list in order that holds the texts of `list` is `in_order(list)`.
pub proof fn lemma_in_order(s: Seq<Seq<char>>, list: Seq<Seq<char>>)
    requires
        ascending(s),
        same_members(s, list),
    ensures
        s == in_order(list),
{
    let o = in_order(list);
    assert(ascending(o) && same_members(o, list));
    assert forall|k: Seq<char>| #[trigger] s.contains(k) <==> o.contains(k) by {
        assert(o.contains(k) <==> list.contains(k));
    }
    law_order_is_unique(s, o);
}

/// The texts of a list in order, each once.
pub fn sort_distinct(list: &[String]) -> (r: Vec<String>)
    ensures
        texts(r@) == in_order(texts(list@)),
        ascending(texts(r@)),
        same_members(texts(r@), texts(list@)),
{
    let ghost all = texts(list@);
    let mut out: Vec<String> = Vec::new();
    let mut i: usize = 0;
    while i < list.len()
        invariant
            i <= list@.len(),
            ascending(texts(out@)),
            same_members(texts(out@), all.take(i as int)),
        decreases list@.len() - i,
    {
        let ghost had = texts(out@);
        let ghost now = all.take(i + 1);
        insert_text(&mut out, list[i].as_str());
        proof {
            assert(now =~= all.take(i as int).push(list@[i as int]@));
            assert forall|k: Seq<char>| #[trigger] texts(out@).contains(k) <==> now.contains(k) by {
                assert(had.contains(k) <==> all.take(i as int).contains(k));
                lemma_push_contains(all.take(i as int), list@[i as int]@, k);
            }
        }
        i += 1;
    }
    proof {
        assert(all.take(i as int) =~= all);
        lemma_in_order(texts(out@), all);
    }
    out
}

/// What a list holds with one more text at its end.
pub proof fn lemma_push_contains(list: Seq<Seq<char>>, last: Seq<char>, k: Seq<char>)
    ensures
        list.push(last).contains(k) <==> list.contains(k) || k == last,
{
    let new = list.push(last);
    if list.contains(k) {
        let i = choose|i: int| 0 <= i < list.len() && list[i] == k;
        assert(new[i] == k);
    }
    if k == last {
        assert(new[list.len() as int] == k);
    }
    if new.contains(k) {
        let i = choose|i: int| 0 <= i < new.len() && new[i] == k;
        if i < list.len() {
            assert(list[i] == k);
        }
    }
}

/// A map from texts that keeps its keys in order.
#[derive(Debug, PartialEq, Eq)]
pub struct TextMap<V> {
    keys: Vec<String>,
    values: Vec<V>,
}

impl<V> View for TextMap<V> {
    type V = Map<Seq<char>, V>;

    closed spec fn view(&self) -> Map<Seq<char>, V> {
        let ks = texts(self.keys@);
        let vs = self.values@;
        Map::new(
            |k: Seq<char>| ks.contains(k),
            |k: Seq<char>| vs[choose|i: int| 0 <= i < ks.len() && ks[i] == k],
        )
    }
}

impl<V> TextMap<V> {
    /// The keys, in order.
    pub closed spec fn keys(&self) -> Seq<Seq<char>> {
        texts(self.keys@)
    }

    /// The values, in the order of their keys.
    pub closed spec fn values(&self) -> Seq<V> {
        self.values@
    }

    pub open spec fn wf(&self) -> bool {
        ascending(self.keys()) && self.keys().len() == self.values().len()
    }

    /// A key that the map holds stands among its keys once, with its value beside it.
    pub proof fn lemma_entries(&self)
        requires
            self.wf(),
        ensures
            forall|k: Seq<char>| #[trigger] self@.dom().contains(k) <==> self.keys().contains(k),
            forall|i: int| #![trigger self.keys()[i]]
                0 <= i < self.keys().len() ==> self@.dom().contains(self.keys()[i])
                    && self@[self.keys()[i]] == self.values()[i],
    {
        let ks = self.keys();
        assert forall|i: int| #![trigger self.keys()[i]] 0 <= i < ks.len() implies self@.dom().contains(
            ks[i],
        ) && self@[ks[i]] == self.values()[i] by {
            assert(ks.contains(ks[i]));
            let j = choose|j: int| 0 <= j < ks.len() && ks[j] == ks[i];
            if j < i {
                assert(before(ks[j], ks[i]));
                lemma_before_irreflexive(ks[i]);
            }
            if i < j {
                assert(before(ks[i], ks[j]));
                lemma_before_irreflexive(ks[i]);
            }
        }
    }

    pub fn new() -> (r: TextMap<V>)
        ensures
            r.wf(),
            r@ == Map::<Seq<char>, V>::empty(),
            r.keys() == Seq::<Seq<char>>::empty(),
            r.values() == Seq::<V>::empty(),
    {
        let r: TextMap<V> = TextMap { keys: Vec::new(), values: Vec::new() };
        assert(r@ =~= Map::<Seq<char>, V>::empty());
        assert(r.keys() =~= Seq::<Seq<char>>::empty());
        r
    }

    /// How many keys the map has.
    pub fn len(&self) -> (r: usize)
        requires
            self.wf(),
        ensures
            r == self.keys().len(),
            r == self.values().len(),
    {
        self.keys.len()
    }

    /// The key at place `i`.
    pub fn key_at(&self, i: usize) -> (r: &String)
        requires
            i < self.keys().len(),
        ensures
            r@ == self.keys()[i as int],
    {
        &self.keys[i]
    }

    /// The value at place `i`.
    pub fn value_at(&self, i: usize) -> (r: &V)
        requires
            i < self.values().len(),
        ensures
            *r == self.values()[i as int],
    {
        &self.values[i]
    }

    /// The value of a key.
    pub fn get(&self, key: &str) -> (r: Option<&V>)
        requires
            self.wf(),
        ensures
            match r {
                Some(v) => self@.dom().contains(key@) && *v == self@[key@],
                None => !self@.dom().contains(key@),
            },
    {
        proof {
            self.lemma_entries();
        }
        let (found, i): (bool, usize) = position(self.keys.as_slice(), key);
        if found {
            assert(self.keys()[i as int] == key@);
            Some(&self.values[i])
        } else {
            None
        }
    }

    /// Gives a key a value, in place of the one it may have.
    pub fn insert(&mut self, key: &str, value: V)
        requires
            old(self).wf(),
        ensures
            final(self).wf(),
            final(self)@ == old(self)@.insert(key@, value),
    {
        let ghost ks = self.keys();
        let ghost vs = self.values();
        let ghost was = self@;
        proof {
            self.lemma_entries();
        }
        let (found, i): (bool, usize) = position(self.keys.as_slice(), key);
        if found {
            self.values.set(i, value);
            proof {
                assert(self.keys() == ks);
                self.lemma_entries();
                assert(ks[i as int] == key@);
                assert forall|k: Seq<char>| #[trigger] was.insert(key@, value).dom().contains(
                    k,
                ) implies self@[k] == was.insert(key@, value)[k] by {
                    let j = choose|j: int| 0 <= j < ks.len() && ks[j] == k;
                    assert(self.keys()[j] == k);
                    assert(was[ks[j]] == vs[j]);
                    if j != i {
                        lemma_before_irreflexive(k);
                        if j < i {
                            assert(before(ks[j], ks[i as int]));
                        } else {
                            assert(before(ks[i as int], ks[j]));
                        }
                    }
                }
                assert(self@ =~= was.insert(key@, value));
            }
        } else {
            self.keys.insert(i, key.to_owned());
            self.values.insert(i, value);
            proof {
                lemma_inserted(ks, i as int, key@);
                assert(self.keys() =~= ks.insert(i as int, key@));
                self.lemma_entries();
                assert forall|k: Seq<char>| #[trigger] was.insert(key@, value).dom().contains(
                    k,
                ) implies self@[k] == was.insert(key@, value)[k] by {
                    if k == key@ {
                        assert(self.keys()[i as int] == k);
                    } else {
                        let j = choose|j: int| 0 <= j < ks.len() && ks[j] == k;
                        assert(was[ks[j]] == vs[j]);
                        if j < i {
                            assert(self.keys()[j] == k);
                        } else {
                            assert(self.keys()[j + 1] == k);
                        }
                    }
                }
                assert(self@ =~= was.insert(key@, value));
            }
        }
    }

    /// Where a key stands.
    pub fn index_of(&self, key: &str) -> (r: Option<usize>)
        requires
            self.wf(),
        ensures
            match r {
                Some(i) => i < self.keys().len() && self.keys()[i as int] == key@
                    && self@.dom().contains(key@) && self@[key@] == self.values()[i as int],
                None => !self@.dom().contains(key@),
            },
    {
        proof {
            self.lemma_entries();
        }
        let (found, i): (bool, usize) = position(self.keys.as_slice(), key);
        if found {
            assert(self.keys()[i as int] == key@);
            Some(i)
        } else {
            None
        }
    }

    /// Whether the map holds a key.
    pub fn contains_key(&self, key: &str) -> (r: bool)
        requires
            self.wf(),
        ensures
            r == self@.dom().contains(key@),
    {
        self.index_of(key).is_some()
    }

    /// The value of entry `i`, to be changed.
    pub fn value_mut(&mut self, i: usize) -> (r: &mut V)
        requires
            old(self).wf(),
            i < old(self).keys().len(),
        ensures
            *r == old(self).values()[i as int],
            final(self).wf(),
            final(self).keys() == old(self).keys(),
            final(self).values() == old(self).values().update(i as int, *final(r)),
    {
        &mut self.values[i]
    }

    /// A map that differs from another in the value of entry `i` holds that value under its key.
    pub proof fn lemma_value_changed(self, was: TextMap<V>, i: int)
        requires
            self.wf(),
            was.wf(),
            0 <= i < was.keys().len(),
            self.keys() == was.keys(),
            self.values() == was.values().update(i, self.values()[i]),
        ensures
            self@ == was@.insert(was.keys()[i], self.values()[i]),
    {
        let ks = was.keys();
        let vs = was.values();
        was.lemma_entries();
        self.lemma_entries();
        let new = was@.insert(ks[i], self.values()[i]);
        assert forall|k: Seq<char>| #[trigger] new.dom().contains(k) implies self@[k] == new[k] by {
            let j = choose|j: int| 0 <= j < ks.len() && ks[j] == k;
            assert(self.keys()[j] == k);
            assert(was@[ks[j]] == vs[j]);
            if j != i {
                lemma_before_irreflexive(k);
                if j < i {
                    assert(before(ks[j], ks[i]));
                } else {
                    assert(before(ks[i], ks[j]));
                }
            }
        }
        assert(self@ =~= new);
    }

    /// Takes the last entry out.
    pub fn pop(&mut self) -> (r: Option<(String, V)>)
        requires
            old(self).wf(),
        ensures
            final(self).wf(),
            match r {
                Some((k, v)) => old(self).keys().len() > 0 && final(self).keys() == old(
                    self,
                ).keys().drop_last() && final(self).values() == old(self).values().drop_last()
                    && k@ == old(self).keys().last() && v == old(self).values().last()
                    && old(self)@ == final(self)@.insert(k@, v) && !final(self)@.dom().contains(k@),
                None => old(self).keys().len() == 0 && *final(self) == *old(self),
            },
    {
        let ghost ks = self.keys();
        let ghost vs = self.values();
        let ghost was = self@;
        proof {
            self.lemma_entries();
        }
        if self.keys.len() == 0 {
            return None;
        }
        match self.keys.pop() {
            Some(k) => match self.values.pop() {
                Some(v) => {
                    proof {
                        assert(self.keys() =~= ks.drop_last());
                        assert(self.values() =~= vs.drop_last());
                        assert(ascending(self.keys()));
                        self.lemma_entries();
                        let new = self@.insert(k@, v);
                        assert(k@ == ks.last());
                        assert(v == vs.last());
                        assert(ks[ks.len() - 1] == k@);
                        assert forall|q: Seq<char>| #[trigger] was.dom().contains(q) <==> new.dom().contains(
                            q,
                        ) by {
                            if was.dom().contains(q) {
                                let j = choose|j: int| 0 <= j < ks.len() && ks[j] == q;
                                if j < ks.len() - 1 {
                                    assert(self.keys()[j] == q);
                                }
                            }
                            if new.dom().contains(q) && q != k@ {
                                let j = choose|j: int|
                                    0 <= j < self.keys().len() && self.keys()[j] == q;
                                assert(ks[j] == q);
                            }
                        }
                        assert forall|q: Seq<char>| #[trigger] was.dom().contains(q) implies was[q]
                            == new[q] by {
                            let j = choose|j: int| 0 <= j < ks.len() && ks[j] == q;
                            assert(was[ks[j]] == vs[j]);
                            if j < ks.len() - 1 {
                                assert(self.keys()[j] == q);
                                assert(before(ks[j], ks[ks.len() - 1]));
                                lemma_before_irreflexive(q);
                            }
                        }
                        assert(was =~= new);
                        assert(ks =~= self.keys().push(k@));
                        lemma_last_key_gone(self.keys(), k@);
                    }
                    Some((k, v))
                },
                None => None,
            },
            None => None,
        }
    }

    /// Takes over the entries of another map, in place of those with the same keys.
    pub fn absorb(&mut self, other: TextMap<V>)
        requires
            old(self).wf(),
            other.wf(),
        ensures
            final(self).wf(),
            final(self)@ == old(self)@.union_prefer_right(other@),
    {
        let mut rest: TextMap<V> = other;
        let ghost goal = self@.union_prefer_right(other@);
        proof {
            rest.lemma_entries();
        }
        loop
            invariant
                self.wf(),
                rest.wf(),
                goal =~= self@.union_prefer_right(rest@),
            decreases rest.keys().len(),
        {
            let ghost mine = self@;
            let ghost theirs = rest@;
            match rest.pop() {
                Some((k, v)) => {
                    let ghost left = rest@;
                    proof {
                        rest.lemma_entries();
                        lemma_last_key_gone(rest.keys(), k@);
                    }
                    self.insert(k.as_str(), v);
                    assert(goal =~= self@.union_prefer_right(left));
                },
                None => {
                    proof {
                        rest.lemma_entries();
                        assert(goal =~= self@);
                    }
                    return;
                },
            }
        }
    }
}

proof fn lemma_last_key_gone(ks: Seq<Seq<char>>, k: Seq<char>)
    requires
        ascending(ks.push(k)),
    ensures
        !ks.contains(k),
{
    if ks.contains(k) {
        let j = choose|j: int| 0 <= j < ks.len() && ks[j] == k;
        let all = ks.push(k);
        assert(before(all[j], all[ks.len() as int]));
        lemma_before_irreflexive(k);
    }
}

/// Texts, each at its first place only.
pub open spec fn firsts(v: Seq<Seq<char>>) -> Seq<Seq<char>>
    decreases v.len(),
{
    if v.len() == 0 {
        Seq::empty()
    } else if firsts(v.drop_last()).contains(v.last()) {
        firsts(v.drop_last())
    } else {
        firsts(v.drop_last()).push(v.last())
    }
}

/// No text is there twice, and every text is still there.
pub proof fn law_firsts(v: Seq<Seq<char>>)
    ensures
        firsts(v).no_duplicates(),
        forall|t: Seq<char>| #[trigger] firsts(v).contains(t) <==> v.contains(t),
    decreases v.len(),
{
    if v.len() > 0 {
        let before = firsts(v.drop_last());
        law_firsts(v.drop_last());
        assert(v =~= v.drop_last().push(v.last()));
        assert forall|t: Seq<char>| #[trigger] firsts(v).contains(t) <==> v.contains(t) by {
            lemma_push_contains(v.drop_last(), v.last(), t);
            if !before.contains(v.last()) {
                lemma_push_contains(before, v.last(), t);
            }
        }
    }
}

/// A text that comes before another keeps its place before it: the first places keep their order.
pub proof fn law_firsts_keep_the_front(v: Seq<Seq<char>>, w: Seq<Seq<char>>)
    ensures
        firsts(v).is_prefix_of(firsts(v + w)),
    decreases w.len(),
{
    if w.len() == 0 {
        assert(v + w =~= v);
    } else {
        law_firsts_keep_the_front(v, w.drop_last());
        assert((v + w).drop_last() =~= v + w.drop_last());
    }
}

/// Texts, each at its first place only.
pub fn keep_firsts(v: &[String]) -> (r: Vec<String>)
    ensures
        texts(r@) == firsts(texts(v@)),
{
    let ghost all = texts(v@);
    let mut out: Vec<String> = Vec::new();
    let mut i: usize = 0;
    assert(texts(out@) =~= Seq::empty());
    while i < v.len()
        invariant
            i <= v@.len(),
            texts(out@) == firsts(all.take(i as int)),
        decreases v@.len() - i,
    {
        assert(all.take(i + 1).drop_last() =~= all.take(i as int));
        assert(all.take(i + 1).last() == v@[i as int]@);
        if !contains_text(&out, v[i].as_str()) {
            push_text(&mut out, v[i].as_str());
        }
        i += 1;
    }
    assert(all.take(i as int) =~= all);
    out
}

} // verus!
