//! Shared vocabulary for the array algorithms: what it means for an
//! element type's comparisons to behave as a total order, what it means
//! for a sequence to be sorted, an in-place swap, and the permutation
//! facts the sorts and searches are specified with.

use core::cmp::Ordering;
use vstd::prelude::*;
use vstd::seq_lib::group_seq_properties;
use vstd::std_specs::cmp::OrdSpec;
use vstd::std_specs::cmp::PartialOrdSpec;

verus! {

/// A sequence is sorted in ascending order.
pub open spec fn sorted(s: Seq<i64>) -> bool {
    forall|i: int, j: int| 0 <= i <= j < s.len() ==> s[i] <= s[j]
}

/// The comparison specification of `T` behaves as a total order that
/// agrees with equality: `cmp` obeys its specification, comparing equal
/// means being equal, `Less` seen from one side is `Greater` seen from the
/// other, and `Less` chains transitively. The integer types all order this
/// way ([`lemma_i64_orders_lawfully`]); a type whose ordering is
/// inconsistent does not, and nothing is promised of it.
pub open spec fn lawful_order<T: Ord>() -> bool {
    &&& T::obeys_cmp_spec()
    &&& forall|a: T, b: T| (#[trigger] a.cmp_spec(&b)) == Ordering::Equal <==> a == b
    &&& forall|a: T, b: T| (#[trigger] a.cmp_spec(&b)) == Ordering::Less <==> b.cmp_spec(&a)
        == Ordering::Greater
    &&& forall|a: T, b: T, c: T|
        (#[trigger] a.cmp_spec(&b)) == Ordering::Less && (#[trigger] b.cmp_spec(&c))
            == Ordering::Less ==> a.cmp_spec(&c) == Ordering::Less
}

/// A sequence is sorted in ascending order of its element type's
/// comparison specification: no earlier element compares `Greater` than a
/// later one.
pub open spec fn sorted_by_cmp<T: Ord>(s: Seq<T>) -> bool {
    forall|i: int, j: int|
        0 <= i <= j < s.len() ==> (#[trigger] s[i].cmp_spec(&s[j])) != Ordering::Greater
}

/// `i64` orders lawfully, under both comparison specifications, and its
/// order discerns values.
pub proof fn lemma_i64_orders_lawfully()
    ensures
        lawful_order::<i64>(),
        lawful_partial_order::<i64>(),
        equality_discerning_order::<i64>(),
{
}

/// For `i64` the comparison-based sortedness is ordinary sortedness.
pub proof fn lemma_sorted_by_cmp_is_sorted(s: Seq<i64>)
    ensures
        sorted_by_cmp(s) <==> sorted(s),
{
    if sorted_by_cmp(s) {
        assert forall|i: int, j: int| 0 <= i <= j < s.len() implies s[i] <= s[j] by {
            assert(s[i].cmp_spec(&s[j]) != Ordering::Greater);
        }
    }
    if sorted(s) {
        assert forall|i: int, j: int|
            0 <= i <= j < s.len() implies (#[trigger] s[i].cmp_spec(&s[j]))
            != Ordering::Greater by {
            assert(s[i] <= s[j]);
        }
    }
}

/// `a` compares at most `b`: their comparison specification answers
/// `Less` or `Equal`.
pub open spec fn le_by<T: PartialOrd>(a: T, b: T) -> bool {
    ||| a.partial_cmp_spec(&b) == Some(Ordering::Less)
    ||| a.partial_cmp_spec(&b) == Some(Ordering::Equal)
}

/// The partial comparison of `T` behaves as a total order: every two
/// values compare (`Some`), the answer seen from the other side is the
/// mirrored one, and `le_by` is reflexive and transitive. The integer
/// types order this way ([`lemma_i64_orders_lawfully`]); a type whose
/// ordering is partial or inconsistent does not, and the sorts promise it
/// no order, only a permutation.
pub open spec fn lawful_partial_order<T: PartialOrd>() -> bool {
    &&& T::obeys_partial_cmp_spec()
    &&& forall|a: T, b: T| (#[trigger] a.partial_cmp_spec(&b)) is Some
    &&& forall|a: T, b: T|
        (#[trigger] a.partial_cmp_spec(&b)) == Some(Ordering::Less) <==> b.partial_cmp_spec(&a)
            == Some(Ordering::Greater)
    &&& forall|a: T, b: T|
        (#[trigger] a.partial_cmp_spec(&b)) == Some(Ordering::Equal) <==> b.partial_cmp_spec(&a)
            == Some(Ordering::Equal)
    &&& forall|a: T| #[trigger] le_by(a, a)
    &&& forall|a: T, b: T, c: T| #[trigger] le_by(a, b) && #[trigger] le_by(b, c) ==> le_by(a, c)
}

/// A sequence window `[from, to)` is sorted in ascending `le_by` order.
pub open spec fn sorted_between_by_le<T: PartialOrd>(s: Seq<T>, from: int, to: int) -> bool {
    forall|i: int, j: int| from <= i <= j < to ==> #[trigger] le_by(s[i], s[j])
}

/// A whole sequence is sorted in ascending `le_by` order.
pub open spec fn sorted_by_le<T: PartialOrd>(s: Seq<T>) -> bool {
    sorted_between_by_le(s, 0, s.len() as int)
}

/// What one comparison tells a lawful order: an answer other than
/// `Greater` means `le_by` as asked, an answer other than `Less` means
/// `le_by` the other way around.
pub proof fn lemma_comparison_to_le<T: PartialOrd>(a: T, b: T)
    requires
        lawful_partial_order::<T>(),
    ensures
        a.partial_cmp_spec(&b) != Some(Ordering::Greater) ==> le_by(a, b),
        a.partial_cmp_spec(&b) != Some(Ordering::Less) ==> le_by(b, a),
{
    match a.partial_cmp_spec(&b) {
        Some(Ordering::Less) => {
            assert(le_by(a, b));
        },
        Some(Ordering::Equal) => {
            assert(b.partial_cmp_spec(&a) == Some(Ordering::Equal));
            assert(le_by(a, b) && le_by(b, a));
        },
        Some(Ordering::Greater) => {
            assert(b.partial_cmp_spec(&a) == Some(Ordering::Less));
            assert(le_by(b, a));
        },
        None => {
            assert(false);
        },
    }
}

/// For `i64` the `le_by` sortedness is ordinary sortedness.
pub proof fn lemma_sorted_by_le_is_sorted(s: Seq<i64>)
    ensures
        sorted_by_le(s) <==> sorted(s),
{
    if sorted_by_le(s) {
        assert forall|i: int, j: int| 0 <= i <= j < s.len() implies s[i] <= s[j] by {
            assert(le_by(s[i], s[j]));
        }
    }
    if sorted(s) {
        assert forall|i: int, j: int| 0 <= i <= j < s.len() implies #[trigger] le_by(
            s[i],
            s[j],
        ) by {
            assert(s[i] <= s[j]);
        }
    }
}

/// Exchanging two positions of a sequence leaves its multiset of elements
/// unchanged.
pub proof fn lemma_swap_preserves_multiset<T>(s: Seq<T>, i: int, j: int)
    requires
        0 <= i < s.len(),
        0 <= j < s.len(),
    ensures
        s.update(i, s[j]).update(j, s[i]).to_multiset() == s.to_multiset(),
{
    broadcast use group_seq_properties;
    broadcast use vstd::seq_lib::to_multiset_update;

    let s1 = s.update(i, s[j]);
    let s2 = s1.update(j, s[i]);
    if i == j {
        assert(s2 =~= s);
    } else {
        s.to_multiset_ensures();
        s1.to_multiset_ensures();
        assert(s.to_multiset().contains(s[i]));
        assert(s1.to_multiset().contains(s1[j]));
        assert(s1[j] == s[j]);
        assert(s2.to_multiset() =~= s.to_multiset());
    }
}

/// Exchanging two positions inside a window of a sequence leaves the
/// multiset of that window unchanged.
pub proof fn lemma_swap_preserves_window_multiset<T>(s: Seq<T>, from: int, to: int, i: int, j: int)
    requires
        0 <= from <= i < to <= s.len(),
        from <= j < to,
    ensures
        s.update(i, s[j]).update(j, s[i]).subrange(from, to).to_multiset() == s.subrange(
            from,
            to,
        ).to_multiset(),
{
    let w = s.subrange(from, to);
    let s2 = s.update(i, s[j]).update(j, s[i]);
    assert(s2.subrange(from, to) =~= w.update(i - from, w[j - from]).update(j - from, w[i - from]));
    lemma_swap_preserves_multiset(w, i - from, j - from);
}

/// Two sequences holding the same multiset of elements draw their elements
/// from one another: every element of the first occurs somewhere in the
/// second.
pub proof fn lemma_same_multiset_gives_membership<T>(s: Seq<T>, t: Seq<T>)
    requires
        s.to_multiset() == t.to_multiset(),
    ensures
        forall|k: int| 0 <= k < s.len() ==> t.contains(#[trigger] s[k]),
{
    s.to_multiset_ensures();
    t.to_multiset_ensures();
    assert forall|k: int| 0 <= k < s.len() implies t.contains(#[trigger] s[k]) by {
        assert(s.contains(s[k]));
        assert(s.to_multiset().count(s[k]) > 0);
    }
}

/// A value is present in a sequence exactly when it is present in any
/// rearrangement of it. Since a search over either sequence reports
/// presence exactly, a linear scan of a sequence and a binary search over a
/// sorted copy of it agree on presence and absence (their indices may
/// differ when elements repeat).
pub proof fn lemma_presence_agrees_across_permutation<T>(s: Seq<T>, t: Seq<T>, value: T)
    requires
        s.to_multiset() == t.to_multiset(),
    ensures
        s.contains(value) <==> t.contains(value),
{
    s.to_multiset_ensures();
    t.to_multiset_ensures();
    assert(s.to_multiset().count(value) == t.to_multiset().count(value));
    if s.contains(value) {
        assert(s.to_multiset().count(value) > 0);
        assert(t.contains(value));
    }
    if t.contains(value) {
        assert(t.to_multiset().count(value) > 0);
        assert(s.contains(value));
    }
}

/// A lawful order that discerns values: two values that compare `Equal`
/// are the same value, as they are under the integer types' orders. Under
/// an order that is lawful but not discerning, a multiset can have several
/// sorted arrangements, differing in how equal-comparing distinct values
/// are placed.
pub open spec fn equality_discerning_order<T: PartialOrd>() -> bool {
    &&& lawful_partial_order::<T>()
    &&& forall|a: T, b: T| (#[trigger] a.partial_cmp_spec(&b)) == Some(Ordering::Equal) ==> a == b
}

/// Under an order that discerns values, a multiset of elements has exactly
/// one sorted arrangement: two sorted sequences holding the same elements
/// are the same sequence. Hence all the sorts here, each of which promises
/// a sorted rearrangement, produce the very same sequence, and applying a
/// sort to an already sorted sequence leaves it unchanged — sorting is
/// idempotent.
pub proof fn lemma_sorted_permutation_unique<T: PartialOrd>(a: Seq<T>, b: Seq<T>)
    requires
        equality_discerning_order::<T>(),
        sorted_by_le(a),
        sorted_by_le(b),
        a.to_multiset() == b.to_multiset(),
    ensures
        a == b,
    decreases a.len(),
{
    a.to_multiset_ensures();
    b.to_multiset_ensures();
    if a.len() == 0 {
        assert(a =~= b);
    } else {
        assert(a.len() == b.len());
        let la = a[a.len() - 1];
        let lb = b[b.len() - 1];
        assert(a.contains(la));
        assert(a.to_multiset().count(la) > 0);
        assert(b.contains(la));
        let i = choose|i: int| 0 <= i < b.len() && #[trigger] b[i] == la;
        assert(le_by(b[i], lb));
        assert(le_by(la, lb));
        assert(b.contains(lb));
        assert(b.to_multiset().count(lb) > 0);
        assert(a.contains(lb));
        let j = choose|j: int| 0 <= j < a.len() && #[trigger] a[j] == lb;
        assert(le_by(a[j], la));
        assert(le_by(lb, la));
        assert(la == lb) by {
            match la.partial_cmp_spec(&lb) {
                Some(Ordering::Less) => {
                    assert(lb.partial_cmp_spec(&la) == Some(Ordering::Greater));
                    assert(false);
                },
                Some(Ordering::Equal) => {
                },
                Some(Ordering::Greater) => {
                    assert(false);
                },
                None => {
                    assert(false);
                },
            }
        }
        assert(a.drop_last() =~= a.remove(a.len() - 1));
        assert(b.drop_last() =~= b.remove(b.len() - 1));
        assert(a.drop_last().to_multiset() == a.to_multiset().remove(la));
        assert(b.drop_last().to_multiset() == b.to_multiset().remove(lb));
        assert forall|p: int, q: int|
            0 <= p <= q < a.drop_last().len() implies #[trigger] le_by(
            a.drop_last()[p],
            a.drop_last()[q],
        ) by {
            assert(le_by(a[p], a[q]));
        }
        assert forall|p: int, q: int|
            0 <= p <= q < b.drop_last().len() implies #[trigger] le_by(
            b.drop_last()[p],
            b.drop_last()[q],
        ) by {
            assert(le_by(b[p], b[q]));
        }
        lemma_sorted_permutation_unique(a.drop_last(), b.drop_last());
        assert(a =~= a.drop_last().push(la));
        assert(b =~= b.drop_last().push(lb));
        assert(a =~= b);
    }
}

/// Exchange the elements at positions `i` and `j`.
pub fn swap<T: Copy>(v: &mut Vec<T>, i: usize, j: usize)
    requires
        i < old(v)@.len(),
        j < old(v)@.len(),
    ensures
        final(v)@ == old(v)@.update(i as int, old(v)@[j as int]).update(j as int, old(v)@[i as int]),
        final(v)@[i as int] == old(v)@[j as int],
        final(v)@[j as int] == old(v)@[i as int],
        forall|k: int| 0 <= k < old(v)@.len() && k != i && k != j ==> final(v)@[k] == old(v)@[k],
        final(v)@.len() == old(v)@.len(),
        final(v)@.to_multiset() == old(v)@.to_multiset(),
{
    proof {
        lemma_swap_preserves_multiset(v@, i as int, j as int);
    }
    let a: T = v[i];
    let b: T = v[j];
    v[i] = b;
    v[j] = a;
}

} // verus!
