//! Rotation of a square matrix by 90 degrees clockwise.

use vstd::prelude::*;

verus! {

/// Every row of `mtx` has as many entries as there are rows.
pub open spec fn is_square(mtx: Seq<Vec<i32>>) -> bool {
    forall|i: int| 0 <= i < mtx.len() ==> #[trigger] mtx[i]@.len() == mtx.len()
}

/// Returns the 90-degrees-clockwise rotation of the square matrix `mtx`:
/// entry `(i, j)` of the result is entry `(n - 1 - j, i)` of the input.
pub fn rotate90(mtx: &Vec<Vec<i32>>) -> (ret: Vec<Vec<i32>>)
    requires
        is_square(mtx@),
    ensures
        ret@.len() == mtx@.len(),
        is_square(ret@),
        forall|i: int, j: int|
            0 <= i < mtx@.len() && 0 <= j < mtx@.len() ==> #[trigger] ret@[i]@[j] == mtx@[mtx@.len()
                - 1 - j]@[i],
{
    let n = mtx.len();
    let mut ret: Vec<Vec<i32>> = Vec::new();
    for i in 0..n
        invariant
            n == mtx@.len(),
            is_square(mtx@),
            ret@.len() == i,
            forall|k: int| 0 <= k < i ==> #[trigger] ret@[k]@.len() == n,
            forall|k: int, j: int|
                0 <= k < i && 0 <= j < n ==> #[trigger] ret@[k]@[j] == mtx@[n - 1 - j]@[k],
    {
        let mut row: Vec<i32> = Vec::new();
        for j in 0..n
            invariant
                n == mtx@.len(),
                is_square(mtx@),
                i < n,
                row@.len() == j,
                forall|l: int| 0 <= l < j ==> #[trigger] row@[l] == mtx@[n - 1 - l]@[i as int],
        {
            let source_row = &mtx[n - 1 - j];
            row.push(source_row[i]);
        }
        ret.push(row);
    }
    ret
}

} // verus!
