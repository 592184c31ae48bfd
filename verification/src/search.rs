//! Binary search over a sequence already sorted ascending.

use vstd::prelude::*;

use crate::sorting::sorted;

verus! {

/// Looks for `target` in the sorted `items`. Returns the target exactly when
/// it is present, and nothing otherwise.
pub fn binary_search(items: &Vec<i32>, target: i32) -> (r: Option<i32>)
    requires
        sorted(items@),
    ensures
        items@.contains(target) ==> r == Some(target),
        !items@.contains(target) ==> r is None,
{
    let mut low: usize = 0;
    let mut high: usize = items.len();

    while low < high
        invariant
            low <= high <= items@.len(),
            sorted(items@),
            forall|i: int| 0 <= i < low ==> items@[i] < target,
            forall|i: int| high <= i < items@.len() ==> items@[i] > target,
        decreases high - low,
    {
        let mid = low + (high - low) / 2;
        let guess = items[mid];

        if guess == target {
            proof {
                assert(items@.contains(target)) by {
                    assert(items@[mid as int] == target);
                }
            }
            return Some(target);
        }

        if guess < target {
            low = mid + 1;
        } else {
            high = mid;
        }
    }

    proof {
        assert(!items@.contains(target)) by {
            assert(forall|i: int| 0 <= i < items@.len() ==> items@[i] != target);
        }
    }
    None
}

} // verus!
