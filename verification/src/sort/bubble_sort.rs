//! Bubble sort.

use core::cmp::Ordering;
use vstd::prelude::*;
use vstd::std_specs::cmp::PartialOrdSpec;
use crate::order::lawful_partial_order;
use crate::order::le_by;
use crate::order::sorted_by_le;
use crate::order::swap;

verus! {

/// Sorts in place by repeatedly comparing adjacent pairs and swapping them
/// when out of order, bubbling the largest unsorted element to the end of
/// each pass. Every pass runs, even on already sorted input.
///
/// The result always holds exactly the elements it started with; it is
/// sorted whenever the element type orders lawfully, as the integer types
/// do.
pub fn bubble_sort<T: PartialOrd + Copy>(arr: &mut Vec<T>)
    ensures
        lawful_partial_order::<T>() ==> sorted_by_le(final(arr)@),
        final(arr)@.to_multiset() == old(arr)@.to_multiset(),
        final(arr)@.len() == old(arr)@.len(),
{
    let len = arr.len();
    let mut i: usize = 0;
    while i < len
        invariant
            len == arr@.len(),
            i <= len,
            arr@.to_multiset() == old(arr)@.to_multiset(),
            lawful_partial_order::<T>() ==> forall|p: int, q: int|
                0 <= p < len - i <= q < len ==> #[trigger] le_by(arr@[p], arr@[q]),
            lawful_partial_order::<T>() ==> forall|p: int, q: int|
                len - i <= p <= q < len ==> #[trigger] le_by(arr@[p], arr@[q]),
        decreases len - i,
    {
        let mut j: usize = 0;
        while j < len - 1 - i
            invariant
                len == arr@.len(),
                i < len,
                j <= len - 1 - i,
                arr@.to_multiset() == old(arr)@.to_multiset(),
                lawful_partial_order::<T>() ==> forall|p: int, q: int|
                    0 <= p < len - i <= q < len ==> #[trigger] le_by(arr@[p], arr@[q]),
                lawful_partial_order::<T>() ==> forall|p: int, q: int|
                    len - i <= p <= q < len ==> #[trigger] le_by(arr@[p], arr@[q]),
                lawful_partial_order::<T>() ==> forall|p: int|
                    0 <= p <= j ==> #[trigger] le_by(arr@[p], arr@[j as int]),
            decreases len - 1 - i - j,
        {
            if arr[j] > arr[j + 1] {
                let ghost prev = arr@;
                swap(arr, j, j + 1);
                proof {
                    if lawful_partial_order::<T>() {
                        assert(prev[j as int].partial_cmp_spec(&prev[j + 1]) == Some(
                            Ordering::Greater,
                        ));
                        assert forall|p: int| 0 <= p <= j + 1 implies #[trigger] le_by(
                            arr@[p],
                            arr@[j + 1],
                        ) by {
                            if p < j {
                                assert(le_by(prev[p], prev[j as int]));
                            } else if p == j {
                                assert(le_by(prev[j + 1], prev[j as int]));
                            } else {
                                assert(le_by(arr@[p], arr@[p]));
                            }
                        }
                    }
                }
            } else {
                proof {
                    if lawful_partial_order::<T>() {
                        assert(le_by(arr@[j as int], arr@[j + 1])) by {
                            match arr@[j as int].partial_cmp_spec(&arr@[j + 1]) {
                                Some(Ordering::Less) => {
                                },
                                Some(Ordering::Equal) => {
                                },
                                Some(Ordering::Greater) => {
                                    assert(false);
                                },
                                None => {
                                    assert(false);
                                },
                            }
                        }
                        assert forall|p: int| 0 <= p <= j + 1 implies #[trigger] le_by(
                            arr@[p],
                            arr@[j + 1],
                        ) by {
                            if p <= j {
                                assert(le_by(arr@[p], arr@[j as int]));
                            } else {
                                assert(le_by(arr@[p], arr@[p]));
                            }
                        }
                    }
                }
            }
            j = j + 1;
        }
        i = i + 1;
    }
}

} // verus!
