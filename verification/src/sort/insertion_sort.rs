//! Insertion sort.

use vstd::prelude::*;
use crate::order::lawful_partial_order;
use crate::order::le_by;
use crate::order::lemma_comparison_to_le;
use crate::order::lemma_swap_preserves_multiset;
use crate::order::sorted_by_le;

verus! {

/// Sorts in place: each element in turn is shifted leftward past all
/// strictly greater predecessors and dropped into its place within the
/// already sorted prefix.
///
/// While an element is being shifted the sequence briefly holds a
/// duplicate, so the loop invariants speak of the sequence with the
/// shifted element written back into the gap. The result always holds
/// exactly the elements it started with; it is sorted whenever the
/// element type orders lawfully, as the integer types do.
pub fn insertion_sort<T: PartialOrd + Copy>(arr: &mut Vec<T>)
    ensures
        lawful_partial_order::<T>() ==> sorted_by_le(final(arr)@),
        final(arr)@.to_multiset() == old(arr)@.to_multiset(),
        final(arr)@.len() == old(arr)@.len(),
{
    let len = arr.len();
    let mut i: usize = 1;
    while i < len
        invariant
            len == arr@.len(),
            len == 0 ==> i == 1,
            1 <= i,
            len > 0 ==> i <= len,
            arr@.to_multiset() == old(arr)@.to_multiset(),
            lawful_partial_order::<T>() ==> forall|p: int, q: int|
                0 <= p <= q < i && q < len ==> #[trigger] le_by(arr@[p], arr@[q]),
        decreases len - i,
    {
        let mut pos: usize = i;
        let temp: T = arr[i];
        proof {
            assert(arr@.update(i as int, temp) =~= arr@);
        }
        while pos > 0 && temp < arr[pos - 1]
            invariant
                len == arr@.len(),
                1 <= i < len,
                pos <= i,
                arr@.update(pos as int, temp).to_multiset() == old(arr)@.to_multiset(),
                lawful_partial_order::<T>() ==> forall|p: int, q: int|
                    0 <= p <= q <= i && p != pos && q != pos ==> #[trigger] le_by(
                        arr@[p],
                        arr@[q],
                    ),
                lawful_partial_order::<T>() ==> forall|p: int|
                    pos < p <= i ==> #[trigger] le_by(temp, arr@[p]),
            decreases pos,
        {
            let ghost old_pos = pos as int;
            let ghost v_old = arr@.update(old_pos, temp);
            proof {
                lemma_swap_preserves_multiset(v_old, old_pos - 1, old_pos);
            }
            arr[pos] = arr[pos - 1];
            pos = pos - 1;
            proof {
                assert(arr@.update(pos as int, temp) =~= v_old.update(
                    old_pos - 1,
                    v_old[old_pos],
                ).update(old_pos, v_old[old_pos - 1]));
                if lawful_partial_order::<T>() {
                    lemma_comparison_to_le(temp, arr@[old_pos]);
                    assert forall|p: int| pos < p <= i implies #[trigger] le_by(temp, arr@[p]) by {
                        if p > old_pos {
                            assert(le_by(temp, arr@[p]));
                        }
                    }
                    assert forall|p: int, q: int|
                        0 <= p <= q <= i && p != pos && q != pos implies #[trigger] le_by(
                            arr@[p],
                            arr@[q],
                        ) by {
                        if q == old_pos && p < old_pos - 1 {
                            assert(le_by(arr@[p], arr@[old_pos - 1]));
                        } else if p == old_pos && q > old_pos {
                            assert(le_by(arr@[old_pos - 1], arr@[q]));
                        } else if p == q {
                            assert(le_by(arr@[p], arr@[p]));
                        }
                    }
                }
            }
        }
        arr[pos] = temp;
        proof {
            if lawful_partial_order::<T>() {
                if pos > 0 {
                    lemma_comparison_to_le(temp, arr@[pos - 1]);
                }
                assert forall|p: int, q: int|
                    0 <= p <= q < i + 1 && q < len implies #[trigger] le_by(arr@[p], arr@[q]) by {
                    if p == q {
                        assert(le_by(arr@[p], arr@[p]));
                    } else if q == pos {
                        assert(le_by(arr@[p], arr@[pos - 1]));
                        assert(le_by(arr@[pos - 1], temp));
                    } else if p == pos {
                        assert(le_by(temp, arr@[q]));
                    }
                }
            }
        }
        i = i + 1;
    }
}

} // verus!
