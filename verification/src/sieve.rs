//! Lists that hold what another list holds, but for the entries that are left out.

use vstd::prelude::*;

verus! {

/// Whether `at` are the places of the entries of `v` that `keep` holds of, in order.
pub open spec fn are_kept<T>(v: Seq<T>, at: Seq<int>, keep: spec_fn(T) -> bool) -> bool {
    &&& forall|k: int| 0 <= k < at.len() ==> 0 <= #[trigger] at[k] < v.len() && keep(v[at[k]])
    &&& forall|k: int, l: int| 0 <= k < l < at.len() ==> #[trigger] at[k] < #[trigger] at[l]
    &&& forall|i: int| 0 <= i < v.len() && keep(#[trigger] v[i]) ==> at.contains(i)
}

/// Whether `kept` holds the entries of `v` that `keep` holds of, each once for each place, and no
/// others, in order, each as `give` makes it.
pub open spec fn is_sieved<T, U>(
    v: Seq<T>,
    kept: Seq<U>,
    keep: spec_fn(T) -> bool,
    give: spec_fn(T) -> U,
) -> bool {
    exists|at: Seq<int>| #[trigger] are_kept(v, at, keep) && at.len() == kept.len() && forall|k: int|
        0 <= k < kept.len() ==> #[trigger] kept[k] == give(v[at[k]])
}

/// Nothing is kept of nothing.
pub proof fn lemma_sieve_nothing<T, U>(
    v: Seq<T>,
    kept: Seq<U>,
    keep: spec_fn(T) -> bool,
    give: spec_fn(T) -> U,
)
    requires
        v.len() == 0,
        kept.len() == 0,
    ensures
        is_sieved(v, kept, keep, give),
{
    assert(are_kept(v, Seq::<int>::empty(), keep));
}

/// One entry more is kept, or not.
pub proof fn lemma_sieve_more<T, U>(
    v: Seq<T>,
    earlier: Seq<U>,
    kept: Seq<U>,
    keep: spec_fn(T) -> bool,
    give: spec_fn(T) -> U,
)
    requires
        v.len() > 0,
        is_sieved(v.drop_last(), earlier, keep, give),
        kept == if keep(v.last()) {
            earlier.push(give(v.last()))
        } else {
            earlier
        },
    ensures
        is_sieved(v, kept, keep, give),
{
    let d = v.drop_last();
    let at = choose|at: Seq<int>| #[trigger]
        are_kept(d, at, keep) && at.len() == earlier.len() && forall|k: int|
            0 <= k < earlier.len() ==> #[trigger] earlier[k] == give(d[at[k]]);
    let n = v.len() - 1;
    let all = if keep(v.last()) {
        at.push(n)
    } else {
        at
    };
    assert forall|k: int| 0 <= k < all.len() implies 0 <= #[trigger] all[k] < v.len() && keep(v[all[k]]) by {
        if k < at.len() {
            assert(all[k] == at[k]);
            assert(d[at[k]] == v[at[k]]);
        }
    }
    assert forall|k: int, l: int| 0 <= k < l < all.len() implies #[trigger] all[k] < #[trigger] all[l] by {
        assert(all[k] == at[k]);
        if l < at.len() {
            assert(all[l] == at[l]);
        }
    }
    assert forall|i: int| 0 <= i < v.len() && keep(#[trigger] v[i]) implies all.contains(i) by {
        if i < n {
            assert(d[i] == v[i]);
            assert(at.contains(i));
            let k = choose|k: int| 0 <= k < at.len() && at[k] == i;
            assert(all[k] == i);
        } else {
            assert(all[at.len() as int] == n);
        }
    }
    assert(are_kept(v, all, keep));
    assert forall|k: int| 0 <= k < kept.len() implies #[trigger] kept[k] == give(v[all[k]]) by {
        if k < earlier.len() {
            assert(kept[k] == earlier[k]);
            assert(d[at[k]] == v[at[k]]);
        }
    }
}

/// Whether `x` is what an entry of `v` gives that `keep` holds of.
pub open spec fn comes_from<T, U>(v: Seq<T>, x: U, keep: spec_fn(T) -> bool, give: spec_fn(T) -> U) -> bool {
    exists|i: int| 0 <= i < v.len() && keep(#[trigger] v[i]) && x == give(v[i])
}

/// What is kept is an entry that is to be kept, and each such entry is kept.
pub proof fn lemma_sieved<T, U>(v: Seq<T>, kept: Seq<U>, keep: spec_fn(T) -> bool, give: spec_fn(T) -> U)
    requires
        is_sieved(v, kept, keep, give),
    ensures
        kept.len() <= v.len(),
        forall|k: int|
            0 <= k < kept.len() ==> comes_from(v, #[trigger] kept[k], keep, give),
        forall|i: int| 0 <= i < v.len() && keep(#[trigger] v[i]) ==> kept.contains(give(v[i])),
{
    let at = choose|at: Seq<int>| #[trigger]
        are_kept(v, at, keep) && at.len() == kept.len() && forall|k: int|
            0 <= k < kept.len() ==> #[trigger] kept[k] == give(v[at[k]]);
    assert forall|k: int| 0 <= k < kept.len() implies comes_from(v, #[trigger] kept[k], keep, give) by {
        assert(keep(v[at[k]]));
    }
    assert forall|i: int| 0 <= i < v.len() && keep(#[trigger] v[i]) implies kept.contains(give(v[i])) by {
        assert(at.contains(i));
        let k = choose|k: int| 0 <= k < at.len() && at[k] == i;
        assert(kept[k] == give(v[i]));
    }
    lemma_rising(at, v.len() as int);
}

proof fn lemma_rising(at: Seq<int>, n: int)
    requires
        forall|k: int| 0 <= k < at.len() ==> 0 <= #[trigger] at[k] < n,
        forall|k: int, l: int| 0 <= k < l < at.len() ==> #[trigger] at[k] < #[trigger] at[l],
        n >= 0,
    ensures
        at.len() <= n,
    decreases at.len(),
{
    if at.len() > 0 {
        let d = at.drop_last();
        let m = at.last();
        assert forall|k: int| 0 <= k < d.len() implies 0 <= #[trigger] d[k] < m by {
            assert(d[k] == at[k]);
            assert(at[k] < at[at.len() - 1]);
        }
        assert forall|k: int, l: int| 0 <= k < l < d.len() implies #[trigger] d[k] < #[trigger] d[l] by {
            assert(at[k] < at[l]);
        }
        lemma_rising(d, m);
    }
}

} // verus!
