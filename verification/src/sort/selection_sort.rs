//! Selection sort.

use vstd::prelude::*;
use crate::order::lawful_partial_order;
use crate::order::le_by;
use crate::order::lemma_comparison_to_le;
use crate::order::sorted_by_le;
use crate::order::swap;

verus! {

/// Sorts in place by repeatedly scanning the unsorted suffix for its
/// smallest element and swapping it into the next position, using at most
/// one swap per position.
///
/// The result always holds exactly the elements it started with; it is
/// sorted whenever the element type orders lawfully, as the integer types
/// do.
pub fn selection_sort<T: PartialOrd + Copy>(arr: &mut Vec<T>)
    ensures
        lawful_partial_order::<T>() ==> sorted_by_le(final(arr)@),
        final(arr)@.to_multiset() == old(arr)@.to_multiset(),
        final(arr)@.len() == old(arr)@.len(),
{
    let len = arr.len();
    let mut i: usize = 0;
    while i < len
        invariant
            len == arr@.len(),
            i <= len,
            arr@.to_multiset() == old(arr)@.to_multiset(),
            lawful_partial_order::<T>() ==> forall|p: int, q: int|
                0 <= p <= q < i ==> #[trigger] le_by(arr@[p], arr@[q]),
            lawful_partial_order::<T>() ==> forall|p: int, q: int|
                0 <= p < i <= q < len ==> #[trigger] le_by(arr@[p], arr@[q]),
        decreases len - i,
    {
        let mut lowest_index: usize = i;
        let mut j: usize = i + 1;
        while j < len
            invariant
                len == arr@.len(),
                i < len,
                i <= lowest_index < len,
                i < j <= len,
                lowest_index < j,
                arr@.to_multiset() == old(arr)@.to_multiset(),
                lawful_partial_order::<T>() ==> forall|p: int, q: int|
                    0 <= p <= q < i ==> #[trigger] le_by(arr@[p], arr@[q]),
                lawful_partial_order::<T>() ==> forall|p: int, q: int|
                    0 <= p < i <= q < len ==> #[trigger] le_by(arr@[p], arr@[q]),
                lawful_partial_order::<T>() ==> forall|k: int|
                    i <= k < j ==> #[trigger] le_by(arr@[lowest_index as int], arr@[k]),
            decreases len - j,
        {
            if arr[j] < arr[lowest_index] {
                proof {
                    if lawful_partial_order::<T>() {
                        lemma_comparison_to_le(arr@[j as int], arr@[lowest_index as int]);
                        assert forall|k: int| i <= k < j + 1 implies #[trigger] le_by(
                            arr@[j as int],
                            arr@[k],
                        ) by {
                            if k < j {
                                assert(le_by(arr@[lowest_index as int], arr@[k]));
                                assert(le_by(arr@[j as int], arr@[lowest_index as int]));
                            } else {
                                assert(le_by(arr@[k], arr@[k]));
                            }
                        }
                    }
                }
                lowest_index = j;
            } else {
                proof {
                    if lawful_partial_order::<T>() {
                        lemma_comparison_to_le(arr@[j as int], arr@[lowest_index as int]);
                        assert(le_by(arr@[lowest_index as int], arr@[j as int]));
                    }
                }
            }
            j = j + 1;
        }
        if lowest_index != i {
            let ghost prev = arr@;
            swap(arr, i, lowest_index);
            proof {
                if lawful_partial_order::<T>() {
                    assert forall|p: int, q: int| 0 <= p <= q < i + 1 implies #[trigger] le_by(
                        arr@[p],
                        arr@[q],
                    ) by {
                        if q == i && p < i {
                            assert(le_by(prev[p], prev[lowest_index as int]));
                        } else if q == i {
                            assert(le_by(arr@[q], arr@[q]));
                        } else {
                            assert(le_by(prev[p], prev[q]));
                        }
                    }
                    assert forall|p: int, q: int|
                        0 <= p < i + 1 <= q < len implies #[trigger] le_by(arr@[p], arr@[q]) by {
                        if p < i {
                            if q == lowest_index {
                                assert(le_by(prev[p], prev[i as int]));
                            } else {
                                assert(le_by(prev[p], prev[q]));
                            }
                        } else {
                            if q == lowest_index {
                                assert(le_by(prev[lowest_index as int], prev[i as int]));
                            } else {
                                assert(le_by(prev[lowest_index as int], prev[q]));
                            }
                        }
                    }
                }
            }
        } else {
            proof {
                if lawful_partial_order::<T>() {
                    assert forall|p: int, q: int| 0 <= p <= q < i + 1 implies #[trigger] le_by(
                        arr@[p],
                        arr@[q],
                    ) by {
                        if q == i && p < i {
                            assert(le_by(arr@[p], arr@[q]));
                        } else if q == i {
                            assert(le_by(arr@[q], arr@[q]));
                        }
                    }
                }
            }
        }
        i = i + 1;
    }
}

} // verus!
