//! Cartesian pairing utility.
//!
//! Downstream stages align baselines with visibilities index for
//! index, so the orientation here is a fixed convention: entry `(i, j)`
//! of the first matrix is element `i` of the first sequence, entry
//! `(i, j)` of the second matrix is element `j` of the second sequence.

use vstd::prelude::*;

verus! {

/// Materializes every ordered pair of the two sequences as two aligned
/// matrices of shape `(a1.len(), a2.len())`.
pub fn meshgrid<T: Copy>(a1: &Vec<T>, a2: &Vec<T>) -> (r: (Vec<Vec<T>>, Vec<Vec<T>>))
    ensures
        r.0@.len() == a1@.len(),
        r.1@.len() == a1@.len(),
        forall|i: int| 0 <= i < a1@.len() ==> (#[trigger] r.0@[i])@.len() == a2@.len(),
        forall|i: int| 0 <= i < a1@.len() ==> (#[trigger] r.1@[i])@.len() == a2@.len(),
        forall|i: int, j: int|
            0 <= i < a1@.len() && 0 <= j < a2@.len() ==> (#[trigger] r.0@[i]@[j]) == a1@[i],
        forall|i: int, j: int|
            0 <= i < a1@.len() && 0 <= j < a2@.len() ==> (#[trigger] r.1@[i]@[j]) == a2@[j],
{
    let rows: usize = a1.len();
    let cols: usize = a2.len();
    let mut first: Vec<Vec<T>> = Vec::new();
    let mut second: Vec<Vec<T>> = Vec::new();
    let mut i: usize = 0;
    while i < rows
        invariant
            0 <= i <= rows,
            rows == a1@.len(),
            cols == a2@.len(),
            first@.len() == i,
            second@.len() == i,
            forall|k: int| 0 <= k < i ==> (#[trigger] first@[k])@.len() == cols,
            forall|k: int| 0 <= k < i ==> (#[trigger] second@[k])@.len() == cols,
            forall|k: int, j: int|
                0 <= k < i && 0 <= j < cols ==> (#[trigger] first@[k]@[j]) == a1@[k],
            forall|k: int, j: int|
                0 <= k < i && 0 <= j < cols ==> (#[trigger] second@[k]@[j]) == a2@[j],
        decreases rows - i,
    {
        let mut row_first: Vec<T> = Vec::new();
        let mut row_second: Vec<T> = Vec::new();
        let mut j: usize = 0;
        while j < cols
            invariant
                0 <= j <= cols,
                i < rows,
                rows == a1@.len(),
                cols == a2@.len(),
                row_first@.len() == j,
                row_second@.len() == j,
                forall|m: int| 0 <= m < j ==> (#[trigger] row_first@[m]) == a1@[i as int],
                forall|m: int| 0 <= m < j ==> (#[trigger] row_second@[m]) == a2@[m],
            decreases cols - j,
        {
            row_first.push(a1[i]);
            row_second.push(a2[j]);
            j = j + 1;
        }
        first.push(row_first);
        second.push(row_second);
        i = i + 1;
    }
    (first, second)
}

} // verus!
