//! Rearrangements of a sequence keep what it holds.

use vstd::prelude::*;
use vstd::seq_lib::{to_multiset_build, to_multiset_remove};

verus! {

/// `from` names each index below its length once.
pub open spec fn is_permutation(from: Seq<int>) -> bool {
    &&& forall|p: int| 0 <= p < from.len() ==> 0 <= #[trigger] from[p] < from.len()
    &&& forall|p: int, q: int|
        0 <= p < q < from.len() ==> #[trigger] from[p] != #[trigger] from[q]
}

/// `after` holds at each place `p` what `before` held at `from[p]`.
pub open spec fn is_gathered<T>(after: Seq<T>, before: Seq<T>, from: Seq<int>) -> bool {
    &&& after.len() == from.len()
    &&& before.len() == from.len()
    &&& forall|p: int| 0 <= p < from.len() ==> #[trigger] after[p] == before[from[p]]
}

/// A sequence that was rearranged holds the same items as before, each as
/// often as before.
pub proof fn lemma_gathered_same_items<T>(after: Seq<T>, before: Seq<T>, from: Seq<int>)
    requires
        is_permutation(from),
        is_gathered(after, before, from),
    ensures
        after.to_multiset() == before.to_multiset(),
    decreases from.len(),
{
    let n = from.len() as int;
    if n == 0 {
        assert(after =~= before);
    } else {
        let j = from[n - 1];
        let shorter_after = after.drop_last();
        let shorter_before = before.remove(j);
        let shorter_from = Seq::new(
            (n - 1) as nat,
            |p: int|
                if from[p] < j {
                    from[p]
                } else {
                    from[p] - 1
                },
        );
        assert forall|p: int| 0 <= p < n - 1 implies 0 <= #[trigger] shorter_from[p] < n - 1
            && shorter_after[p] == shorter_before[shorter_from[p]] by {
            assert(from[p] != from[n - 1]);
            assert(after[p] == before[from[p]]);
        }
        assert forall|p: int, q: int| 0 <= p < q < n - 1 implies #[trigger] shorter_from[p]
            != #[trigger] shorter_from[q] by {
            assert(from[p] != from[q]);
            assert(from[p] != from[n - 1]);
            assert(from[q] != from[n - 1]);
        }
        lemma_gathered_same_items(shorter_after, shorter_before, shorter_from);
        to_multiset_remove(before, j);
        assert(after =~= shorter_after.push(before[j]));
        to_multiset_build(shorter_after, before[j]);
        before.to_multiset_ensures();
        assert(before.to_multiset().count(before[j]) > 0);
        assert(after.to_multiset() =~= before.to_multiset());
    }
}

/// A permutation names every index: there is a place that holds `target`.
pub proof fn lemma_permutation_onto(from: Seq<int>, target: int) -> (p: int)
    requires
        is_permutation(from),
        0 <= target < from.len(),
    ensures
        0 <= p < from.len(),
        from[p] == target,
{
    let n = from.len() as int;
    assert(from.no_duplicates());
    from.unique_seq_to_set();
    let places = Set::new(|x: int| 0 <= x < n);
    vstd::set_lib::lemma_int_range(0, n);
    assert(places =~= vstd::set_lib::set_int_range(0, n));
    assert forall|x: int| from.to_set().contains(x) implies places.contains(x) by {
        let i = choose|i: int| 0 <= i < from.len() && from[i] == x;
        assert(0 <= from[i] < n);
    }
    assert(from.to_set().subset_of(places));
    vstd::set_lib::lemma_subset_equality(from.to_set(), places);
    assert(from.to_set().contains(target));
    choose|i: int| 0 <= i < from.len() && from[i] == target
}

} // verus!
