//! Texts that tell of the entries of a list, one after the other.

use vstd::prelude::*;

verus! {

/// Whether `cuts` cut `told` into one piece for each entry of `v`, each piece being the entry's row.
pub open spec fn are_cuts<T>(v: Seq<T>, told: Seq<char>, row: spec_fn(T) -> Seq<char>, cuts: Seq<int>) -> bool {
    &&& cuts.len() == v.len() + 1
    &&& cuts[0] == 0
    &&& cuts.last() == told.len()
    &&& forall|i: int|
        0 <= i < v.len() ==> 0 <= #[trigger] cuts[i] <= told.len() && cuts[i] + row(v[i]).len() == cuts[i + 1]
            && told.skip(cuts[i]).take(row(v[i]).len() as int) == row(v[i])
}

/// Whether `told` is the rows of the entries of `v`, one behind the other, with nothing between
/// them, before them or behind them.
pub open spec fn are_told<T>(v: Seq<T>, told: Seq<char>, row: spec_fn(T) -> Seq<char>) -> bool {
    exists|cuts: Seq<int>| #[trigger] are_cuts(v, told, row, cuts)
}

/// Nothing is told of nothing.
pub proof fn lemma_told_nothing<T>(v: Seq<T>, told: Seq<char>, row: spec_fn(T) -> Seq<char>)
    requires
        v.len() == 0,
        told.len() == 0,
    ensures
        are_told(v, told, row),
{
    assert(are_cuts(v, told, row, seq![0int]));
}

/// One entry more is told.
pub proof fn lemma_told_more<T>(v: Seq<T>, earlier: Seq<char>, told: Seq<char>, row: spec_fn(T) -> Seq<char>)
    requires
        v.len() > 0,
        are_told(v.drop_last(), earlier, row),
        told == earlier + row(v.last()),
    ensures
        are_told(v, told, row),
{
    let d = v.drop_last();
    let had = choose|cuts: Seq<int>| #[trigger] are_cuts(d, earlier, row, cuts);
    let cuts = had.push(told.len() as int);
    assert forall|i: int| 0 <= i < v.len() implies 0 <= #[trigger] cuts[i] <= told.len() && cuts[i] + row(
        v[i],
    ).len() == cuts[i + 1] && told.skip(cuts[i]).take(row(v[i]).len() as int) == row(v[i]) by {
        assert(cuts[i] == had[i]);
        let n = row(v[i]).len() as int;
        if i < d.len() {
            assert(d[i] == v[i]);
            assert(cuts[i + 1] == had[i + 1]);
            lemma_cut_ends(d, earlier, row, had, i + 1);
            assert(told.skip(cuts[i]).take(n) =~= earlier.skip(had[i]).take(n));
        } else {
            assert(had[i] == earlier.len());
            assert(told.skip(cuts[i]).take(n) =~= row(v.last()));
        }
    }
    assert(are_cuts(v, told, row, cuts));
}

proof fn lemma_cut_ends<T>(v: Seq<T>, told: Seq<char>, row: spec_fn(T) -> Seq<char>, cuts: Seq<int>, i: int)
    requires
        are_cuts(v, told, row, cuts),
        0 <= i <= v.len(),
    ensures
        0 <= cuts[i] <= told.len(),
{
    if i == v.len() {
        assert(cuts[i] == cuts.last());
    }
}

/// Every row stands in what is told.
pub proof fn lemma_told<T>(v: Seq<T>, told: Seq<char>, row: spec_fn(T) -> Seq<char>, i: int)
    requires
        are_told(v, told, row),
        0 <= i < v.len(),
    ensures
        crate::text::occurs(told, row(v[i])),
{
    let cuts = choose|cuts: Seq<int>| #[trigger] are_cuts(v, told, row, cuts);
    let a = cuts[i];
    let n = row(v[i]).len() as int;
    lemma_cut_ends(v, told, row, cuts, i + 1);
    assert(told.subrange(a, a + n) =~= told.skip(a).take(n));
    assert(crate::text::occurs_at(told, row(v[i]), a));
}

} // verus!
