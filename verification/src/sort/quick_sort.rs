//! Quick sort with the Lomuto partition scheme.

use core::cmp::Ordering;
use vstd::prelude::*;
use vstd::seq_lib::lemma_multiset_commutative;
use vstd::std_specs::cmp::PartialOrdSpec;
use crate::order::lawful_partial_order;
use crate::order::le_by;
use crate::order::lemma_comparison_to_le;
use crate::order::lemma_same_multiset_gives_membership;
use crate::order::lemma_swap_preserves_window_multiset;
use crate::order::sorted_between_by_le;
use crate::order::sorted_by_le;
use crate::order::swap;

verus! {

/// Partitions `arr[low..=high]` around its last element: a single
/// left-to-right scan moves every element comparing at most the pivot
/// into a growing prefix, then the pivot is swapped into its final
/// position, which is returned.
fn partition<T: PartialOrd + Copy>(arr: &mut Vec<T>, low: usize, high: usize) -> (p: usize)
    requires
        low < high < old(arr)@.len(),
    ensures
        low <= p <= high,
        final(arr)@[p as int] == old(arr)@[high as int],
        final(arr)@.len() == old(arr)@.len(),
        forall|k: int|
            0 <= k < old(arr)@.len() && !(low <= k <= high) ==> final(arr)@[k] == old(arr)@[k],
        final(arr)@.subrange(low as int, high as int + 1).to_multiset() == old(arr)@.subrange(
            low as int,
            high as int + 1,
        ).to_multiset(),
        lawful_partial_order::<T>() ==> forall|k: int|
            low <= k < p ==> #[trigger] le_by(final(arr)@[k], final(arr)@[p as int]),
        lawful_partial_order::<T>() ==> forall|k: int|
            p < k <= high ==> (#[trigger] final(arr)@[k].partial_cmp_spec(&final(arr)@[p as int]))
                == Some(Ordering::Greater),
{
    let mut i: usize = low;
    let mut j: usize = low;
    while j < high
        invariant
            low <= i <= j <= high < arr@.len(),
            arr@.len() == old(arr)@.len(),
            forall|k: int|
                0 <= k < arr@.len() && !(low <= k <= high) ==> arr@[k] == old(arr)@[k],
            arr@.subrange(low as int, high as int + 1).to_multiset() == old(arr)@.subrange(
                low as int,
                high as int + 1,
            ).to_multiset(),
            arr@[high as int] == old(arr)@[high as int],
            lawful_partial_order::<T>() ==> forall|k: int|
                low <= k < i ==> #[trigger] le_by(arr@[k], arr@[high as int]),
            lawful_partial_order::<T>() ==> forall|k: int|
                i <= k < j ==> (#[trigger] arr@[k].partial_cmp_spec(&arr@[high as int])) == Some(
                    Ordering::Greater,
                ),
        decreases high - j,
    {
        if arr[j] <= arr[high] {
            let ghost prev = arr@;
            swap(arr, i, j);
            proof {
                lemma_swap_preserves_window_multiset(
                    prev,
                    low as int,
                    high as int + 1,
                    i as int,
                    j as int,
                );
                if lawful_partial_order::<T>() {
                    assert forall|k: int| low <= k < i + 1 implies #[trigger] le_by(
                        arr@[k],
                        arr@[high as int],
                    ) by {
                        if k < i {
                            assert(le_by(prev[k], prev[high as int]));
                        } else {
                            assert(le_by(prev[j as int], prev[high as int]));
                        }
                    }
                    assert forall|k: int|
                        i + 1 <= k < j + 1 implies (#[trigger] arr@[k].partial_cmp_spec(
                        &arr@[high as int],
                    )) == Some(Ordering::Greater) by {
                        if k == j && i != j {
                            assert(prev[i as int].partial_cmp_spec(&prev[high as int]) == Some(
                                Ordering::Greater,
                            ));
                        } else if k < j {
                            assert(prev[k].partial_cmp_spec(&prev[high as int]) == Some(
                                Ordering::Greater,
                            ));
                        }
                    }
                }
            }
            i = i + 1;
        } else {
            proof {
                if lawful_partial_order::<T>() {
                    assert(arr@[j as int].partial_cmp_spec(&arr@[high as int]) == Some(
                        Ordering::Greater,
                    )) by {
                        match arr@[j as int].partial_cmp_spec(&arr@[high as int]) {
                            Some(Ordering::Less) => {
                                assert(false);
                            },
                            Some(Ordering::Equal) => {
                                assert(false);
                            },
                            Some(Ordering::Greater) => {
                            },
                            None => {
                                assert(false);
                            },
                        }
                    }
                }
            }
        }
        j = j + 1;
    }
    let ghost prev = arr@;
    swap(arr, i, high);
    proof {
        lemma_swap_preserves_window_multiset(
            prev,
            low as int,
            high as int + 1,
            i as int,
            high as int,
        );
        if lawful_partial_order::<T>() {
            assert forall|k: int| low <= k < i implies #[trigger] le_by(
                arr@[k],
                arr@[i as int],
            ) by {
                assert(le_by(prev[k], prev[high as int]));
            }
            assert forall|k: int|
                i < k <= high implies (#[trigger] arr@[k].partial_cmp_spec(&arr@[i as int]))
                == Some(Ordering::Greater) by {
                if k < high {
                    assert(prev[k].partial_cmp_spec(&prev[high as int]) == Some(
                        Ordering::Greater,
                    ));
                } else {
                    assert(prev[i as int].partial_cmp_spec(&prev[high as int]) == Some(
                        Ordering::Greater,
                    ));
                }
            }
        }
    }
    i
}

/// Sorts `arr[low..=high]` in place by recursive partitioning. Positions
/// outside that window are left untouched; a window of fewer than two
/// elements is left as it is.
pub fn _quick_sort<T: PartialOrd + Copy>(arr: &mut Vec<T>, low: usize, high: usize)
    requires
        low < high ==> high < old(arr)@.len(),
    ensures
        final(arr)@.len() == old(arr)@.len(),
        forall|k: int|
            0 <= k < old(arr)@.len() && !(low <= k <= high) ==> final(arr)@[k] == old(arr)@[k],
        low <= high + 1 && high < old(arr)@.len() ==> final(arr)@.subrange(
            low as int,
            high as int + 1,
        ).to_multiset() == old(arr)@.subrange(low as int, high as int + 1).to_multiset(),
        lawful_partial_order::<T>() ==> sorted_between_by_le(
            final(arr)@,
            low as int,
            high as int + 1,
        ),
        !(low < high) ==> final(arr)@ == old(arr)@,
    decreases (if low <= high { high - low } else { 0 }),
{
    if low < high {
        let n = arr.len();
        let ghost lo = low as int;
        let ghost hi = high as int;
        let pivot = partition(arr, low, high);
        let ghost s1 = arr@;
        let ghost pv = pivot as int;
        assert(pivot < n);
        if pivot > 0 {
            _quick_sort(arr, low, pivot - 1);
        }
        let ghost s2 = arr@;
        _quick_sort(arr, pivot + 1, high);
        let ghost s3 = arr@;
        proof {
            // The two recursive calls leave the pivot and each other's
            // windows alone.
            assert(s2.subrange(lo, pv) =~= s3.subrange(lo, pv));
            assert(s2.subrange(pv + 1, hi + 1) =~= s1.subrange(pv + 1, hi + 1));
            assert(s3[pv] == s1[pv]);
            // The window's multiset is preserved piece by piece.
            assert(s3.subrange(lo, pv).to_multiset() == s1.subrange(lo, pv).to_multiset());
            assert(s3.subrange(pv + 1, hi + 1).to_multiset() == s1.subrange(
                pv + 1,
                hi + 1,
            ).to_multiset());
            assert(s1.subrange(lo, hi + 1) =~= s1.subrange(lo, pv) + s1.subrange(pv, pv + 1)
                + s1.subrange(pv + 1, hi + 1));
            assert(s3.subrange(lo, hi + 1) =~= s3.subrange(lo, pv) + s3.subrange(pv, pv + 1)
                + s3.subrange(pv + 1, hi + 1));
            assert(s3.subrange(pv, pv + 1) =~= s1.subrange(pv, pv + 1));
            lemma_multiset_commutative(s1.subrange(lo, pv), s1.subrange(pv, pv + 1));
            lemma_multiset_commutative(
                s1.subrange(lo, pv) + s1.subrange(pv, pv + 1),
                s1.subrange(pv + 1, hi + 1),
            );
            lemma_multiset_commutative(s3.subrange(lo, pv), s3.subrange(pv, pv + 1));
            lemma_multiset_commutative(
                s3.subrange(lo, pv) + s3.subrange(pv, pv + 1),
                s3.subrange(pv + 1, hi + 1),
            );
            assert(s3.subrange(lo, hi + 1).to_multiset() == s1.subrange(lo, hi + 1).to_multiset());
            if lawful_partial_order::<T>() {
                let piv = s1[pv];
                // Everything left of the pivot still compares at most the
                // pivot, everything right of it still compares above it.
                lemma_same_multiset_gives_membership(s3.subrange(lo, pv), s1.subrange(lo, pv));
                assert forall|k: int| lo <= k < pv implies #[trigger] le_by(s3[k], piv) by {
                    assert(s3.subrange(lo, pv)[k - lo] == s3[k]);
                    assert(s1.subrange(lo, pv).contains(s3[k]));
                    let m = choose|m: int|
                        0 <= m < s1.subrange(lo, pv).len() && #[trigger] s1.subrange(lo, pv)[m]
                            == s3[k];
                    assert(le_by(s1[lo + m], piv));
                }
                lemma_same_multiset_gives_membership(
                    s3.subrange(pv + 1, hi + 1),
                    s1.subrange(pv + 1, hi + 1),
                );
                assert forall|k: int| pv < k <= hi implies #[trigger] le_by(piv, s3[k]) by {
                    assert(s3.subrange(pv + 1, hi + 1)[k - (pv + 1)] == s3[k]);
                    assert(s1.subrange(pv + 1, hi + 1).contains(s3[k]));
                    let m = choose|m: int|
                        0 <= m < s1.subrange(pv + 1, hi + 1).len() && #[trigger] s1.subrange(
                            pv + 1,
                            hi + 1,
                        )[m] == s3[k];
                    assert(s1[pv + 1 + m].partial_cmp_spec(&piv) == Some(Ordering::Greater));
                    lemma_comparison_to_le(s1[pv + 1 + m], piv);
                }
                // The sorted left and right windows join across the pivot.
                assert forall|a: int, b: int| lo <= a <= b <= hi implies #[trigger] le_by(
                    s3[a],
                    s3[b],
                ) by {
                    if a == b {
                        assert(le_by(s3[a], s3[a]));
                    } else if a < pv && b < pv {
                        assert(sorted_between_by_le(s2, lo, pv));
                        assert(le_by(s2[a], s2[b]));
                    } else if a > pv && b > pv {
                        assert(le_by(s3[a], s3[b]));
                    } else if b == pv {
                        assert(le_by(s3[a], piv));
                    } else if a == pv {
                        assert(le_by(piv, s3[b]));
                    } else {
                        assert(le_by(s3[a], piv));
                        assert(le_by(piv, s3[b]));
                    }
                }
            }
        }
    }
}

/// Sorts in place by recursive partitioning around the last element of the
/// active range; an empty sequence is a no-op.
///
/// The result always holds exactly the elements it started with; it is
/// sorted whenever the element type orders lawfully, as the integer types
/// do.
pub fn quick_sort<T: PartialOrd + Copy>(arr: &mut Vec<T>)
    ensures
        lawful_partial_order::<T>() ==> sorted_by_le(final(arr)@),
        final(arr)@.to_multiset() == old(arr)@.to_multiset(),
        final(arr)@.len() == old(arr)@.len(),
{
    if arr.is_empty() {
        return;
    }
    let high = arr.len() - 1;
    _quick_sort(arr, 0, high);
    proof {
        assert(arr@.subrange(0, high as int + 1) =~= arr@);
        assert(old(arr)@.subrange(0, high as int + 1) =~= old(arr)@);
    }
}

} // verus!
