//! Binary search over a sequence sorted in ascending order.

use core::cmp::Ordering;
use vstd::prelude::*;
use vstd::std_specs::cmp::OrdSpec;
use crate::order::lawful_order;
use crate::order::sorted_by_cmp;

verus! {

/// Searches a sequence sorted in ascending order for `value`, keeping a
/// half-open candidate range and halving it at every step.
///
/// Returns an index holding `value` as soon as a midpoint lands on one —
/// among duplicates this is not necessarily the first occurrence — and
/// `None` exactly when `value` is absent. The result is pinned down
/// whenever the element type orders lawfully, as the integer types do; on
/// a sequence that is not sorted nothing is promised.
pub fn binary_search<T: Ord>(value: &T, arr: &[T]) -> (r: Option<usize>)
    requires
        lawful_order::<T>() ==> sorted_by_cmp(arr@),
    ensures
        lawful_order::<T>() ==> match r {
            Some(idx) => idx < arr@.len() && arr@[idx as int] == *value,
            None => forall|k: int| 0 <= k < arr@.len() ==> arr@[k] != *value,
        },
{
    let mut left: usize = 0;
    let mut right: usize = arr.len();

    while left < right
        invariant
            lawful_order::<T>() ==> sorted_by_cmp(arr@),
            left <= right <= arr@.len(),
            lawful_order::<T>() ==> forall|k: int|
                0 <= k < left ==> (#[trigger] arr@[k].cmp_spec(value)) == Ordering::Less,
            lawful_order::<T>() ==> forall|k: int|
                right <= k < arr@.len() ==> (#[trigger] arr@[k].cmp_spec(value))
                    == Ordering::Greater,
        decreases right - left,
    {
        let mid = left + (right - left) / 2;
        match arr[mid].cmp(value) {
            Ordering::Equal => {
                return Some(mid);
            },
            Ordering::Less => {
                proof {
                    if lawful_order::<T>() {
                        assert forall|k: int| 0 <= k < mid + 1 implies (
                        #[trigger] arr@[k].cmp_spec(value)) == Ordering::Less by {
                            assert(arr@[k].cmp_spec(&arr@[mid as int]) != Ordering::Greater);
                            if arr@[k].cmp_spec(&arr@[mid as int]) == Ordering::Equal {
                                assert(arr@[k] == arr@[mid as int]);
                            }
                        }
                    }
                }
                left = mid + 1;
            },
            Ordering::Greater => {
                proof {
                    if lawful_order::<T>() {
                        assert forall|k: int| mid <= k < arr@.len() implies (
                        #[trigger] arr@[k].cmp_spec(value)) == Ordering::Greater by {
                            assert(arr@[mid as int].cmp_spec(&arr@[k]) != Ordering::Greater);
                            if arr@[mid as int].cmp_spec(&arr@[k]) == Ordering::Equal {
                                assert(arr@[mid as int] == arr@[k]);
                            } else {
                                assert(value.cmp_spec(&arr@[mid as int]) == Ordering::Less);
                            }
                        }
                    }
                }
                right = mid;
            },
        }
    }
    proof {
        if lawful_order::<T>() {
            assert forall|k: int| 0 <= k < arr@.len() implies arr@[k] != *value by {
                if arr@[k] == *value {
                    assert(arr@[k].cmp_spec(value) == Ordering::Equal);
                }
            }
        }
    }
    None
}

} // verus!
