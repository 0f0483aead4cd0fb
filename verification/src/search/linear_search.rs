//! Linear search over an arbitrary sequence.

use vstd::prelude::*;
use vstd::std_specs::cmp::PartialEqSpec;

verus! {

/// Scans `arr` from left to right and returns the first index whose element
/// compares equal to `value`, or `None` if no element does.
///
/// The result is pinned down whenever the element type's `==` agrees with
/// its specification (`obeys_eq_spec`), as it does for the integer types.
pub fn linear_search<T: PartialEq>(value: &T, arr: &[T]) -> (r: Option<usize>)
    ensures
        T::obeys_eq_spec() ==> match r {
            Some(idx) => {
                &&& idx < arr@.len()
                &&& arr@[idx as int].eq_spec(value)
                &&& forall|k: int| 0 <= k < idx ==> !(#[trigger] arr@[k].eq_spec(value))
            },
            None => forall|k: int| 0 <= k < arr@.len() ==> !(#[trigger] arr@[k].eq_spec(value)),
        },
{
    let n = arr.len();
    let mut idx: usize = 0;
    while idx < n
        invariant
            n == arr@.len(),
            idx <= n,
            T::obeys_eq_spec() ==> forall|k: int|
                0 <= k < idx ==> !(#[trigger] arr@[k].eq_spec(value)),
        decreases n - idx,
    {
        if arr[idx] == *value {
            return Some(idx);
        }
        idx = idx + 1;
    }
    None
}

} // verus!
