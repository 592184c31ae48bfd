//! Quicksort over vectors of integers.

use vstd::prelude::*;

verus! {

broadcast use
    vstd::seq_lib::group_to_multiset_ensures,
    vstd::seq_lib::lemma_multiset_commutative,
    vstd::multiset::group_multiset_axioms;

/// The sequence is sorted ascending (non-strictly).
pub open spec fn sorted(s: Seq<i32>) -> bool {
    forall|i: int, j: int| 0 <= i <= j < s.len() ==> s[i] <= s[j]
}

/// Sorts `items` ascending: the result is a sorted rearrangement of exactly
/// the input elements. The middle element is the pivot; elements greater
/// than the pivot go right of it, all others left.
pub fn quicksort(items: Vec<i32>) -> (r: Vec<i32>)
    ensures
        sorted(r@),
        r@.to_multiset() == items@.to_multiset(),
    decreases items@.len(),
{
    let ghost orig = items@;
    let mut items = items;
    if items.len() < 2 {
        return items;
    }

    let pivot_index = items.len() / 2;
    let pivot = items.remove(pivot_index);
    proof {
        assert(orig.to_multiset() =~= items@.to_multiset().insert(pivot));
    }

    let mut lesser: Vec<i32> = Vec::new();
    let mut greater: Vec<i32> = Vec::new();
    let mut i: usize = 0;
    while i < items.len()
        invariant
            i <= items@.len(),
            lesser@.len() + greater@.len() == i,
            lesser@.to_multiset().add(greater@.to_multiset()) == items@.take(
                i as int,
            ).to_multiset(),
            forall|k: int| 0 <= k < lesser@.len() ==> #[trigger] lesser@[k] <= pivot,
            forall|k: int| 0 <= k < greater@.len() ==> #[trigger] greater@[k] > pivot,
        decreases items@.len() - i,
    {
        let item = items[i];
        proof {
            assert(items@.take(i + 1 as int) =~= items@.take(i as int).push(items@[i as int]));
        }
        if item > pivot {
            greater.push(item);
        } else {
            lesser.push(item);
        }
        proof {
            assert(lesser@.to_multiset().add(greater@.to_multiset()) =~= items@.take(
                i + 1 as int,
            ).to_multiset());
        }
        i += 1;
    }
    proof {
        assert(items@.take(items@.len() as int) =~= items@);
    }

    let mut r = quicksort(lesser);
    let ghost sorted_lesser = r@;
    r.push(pivot);
    let mut g = quicksort(greater);
    let ghost sorted_greater = g@;
    r.append(&mut g);

    proof {
        assert(r@ == sorted_lesser.push(pivot) + sorted_greater);
        assert(r@.to_multiset() =~= orig.to_multiset());

        assert forall|k: int| 0 <= k < sorted_lesser.len() implies sorted_lesser[k] <= pivot by {
            assert(sorted_lesser.to_multiset().count(sorted_lesser[k]) > 0) by {
                assert(sorted_lesser.contains(sorted_lesser[k]));
            }
            assert(lesser@.contains(sorted_lesser[k]));
        }
        assert forall|k: int| 0 <= k < sorted_greater.len() implies sorted_greater[k] > pivot by {
            assert(sorted_greater.to_multiset().count(sorted_greater[k]) > 0) by {
                assert(sorted_greater.contains(sorted_greater[k]));
            }
            assert(greater@.contains(sorted_greater[k]));
        }
        assert forall|a: int, b: int| 0 <= a <= b < r@.len() implies r@[a] <= r@[b] by {
            let m = sorted_lesser.len() as int;
            if b <= m {
                if a < m && b < m {
                    assert(sorted_lesser[a] <= sorted_lesser[b]);
                }
            } else {
                if a > m {
                    assert(sorted_greater[a - m - 1] <= sorted_greater[b - m - 1]);
                }
            }
        }
    }
    r
}

} // verus!
