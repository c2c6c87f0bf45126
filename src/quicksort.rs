//! The partition sort: first element as pivot, Lomuto partition, then
//! recursion on the two sides.
use vstd::laws_cmp::obeys_cmp;
use vstd::prelude::*;
use vstd::std_specs::cmp::PartialOrdSpec;

use crate::order::{is_sorted, lemma_less_is_strict_order, less, sorts_to};
use crate::swap::swap_elements;

verus! {

broadcast use vstd::seq_lib::group_to_multiset_ensures, vstd::multiset::group_multiset_axioms;

/// Sorts `array` in place into ascending order.
///
/// The result is a rearrangement of the input in which no element is less
/// than one before it. Equal elements keep no particular order. An input that
/// is already sorted (in particular an empty one, a single element, or all
/// equal elements) is left exactly as it was.
pub fn sort<T: Ord>(array: &mut [T])
    requires
        obeys_cmp::<T>(),
    ensures
        sorts_to(old(array)@, final(array)@),
        is_sorted(old(array)@) ==> final(array)@ == old(array)@,
    decreases old(array)@.len(),
{
    if array.len() <= 1 {
        return;
    }
    let ghost start = array@;
    let left_count = partition(array);
    let ghost parted = array@;
    let ghost p = start[0];
    let (left, rest) = array.split_at_mut(left_count);
    let (pivot_slot, right) = rest.split_at_mut(1);
    let ghost left_start = left@;
    let ghost right_start = right@;
    sort(left);
    sort(right);
    proof {
        lemma_less_is_strict_order::<T>();
        assert(parted =~= left_start + seq![p] + right_start);
        assert(pivot_slot@ =~= seq![p]);
        let done = left@ + seq![p] + right@;
        assert(left@.to_multiset().len() == left_start.to_multiset().len());
        assert(right@.to_multiset().len() == right_start.to_multiset().len());
        vstd::seq_lib::lemma_multiset_commutative(left_start, seq![p]);
        vstd::seq_lib::lemma_multiset_commutative(left_start + seq![p], right_start);
        vstd::seq_lib::lemma_multiset_commutative(left@, seq![p]);
        vstd::seq_lib::lemma_multiset_commutative(left@ + seq![p], right@);
        assert(done.to_multiset() =~= start.to_multiset());
        assert forall|a: int| 0 <= a < left@.len() implies less(#[trigger] left@[a], p) by {
            assert(left_start.to_multiset().count(left@[a]) > 0);
            let b = choose|b: int| 0 <= b < left_start.len() && left_start[b] == left@[a];
            assert(parted[b] == left_start[b]);
        }
        assert forall|a: int| 0 <= a < right@.len() implies !less(#[trigger] right@[a], p) by {
            assert(right_start.to_multiset().count(right@[a]) > 0);
            let b = choose|b: int| 0 <= b < right_start.len() && right_start[b] == right@[a];
            assert(parted[left_count + 1 + b] == right_start[b]);
        }
        assert forall|i: int, j: int| 0 <= i < j < done.len() implies !less(
            #[trigger] done[j],
            #[trigger] done[i],
        ) by {
            let k = left_count as int;
            if j < k {
                assert(done[i] == left@[i] && done[j] == left@[j]);
            } else if j == k {
                assert(done[i] == left@[i]);
            } else if i < k {
                assert(done[i] == left@[i] && done[j] == right@[j - k - 1]);
            } else if i == k {
                assert(done[j] == right@[j - k - 1]);
            } else {
                assert(done[i] == right@[i - k - 1] && done[j] == right@[j - k - 1]);
            }
        }
        assert(done =~= left@ + (pivot_slot@ + right@));
        if is_sorted(start) {
            assert(left_start.len() == 0);
            assert(right_start =~= start.subrange(1, start.len() as int));
            assert(done =~= start);
        }
    }
}

/// An empty sequence, a single element, and a run of equal elements are
/// already sorted, so [`sort`] leaves each of them unchanged.
pub proof fn lemma_trivially_sorted<T: Ord>(s: Seq<T>)
    requires
        obeys_cmp::<T>(),
        s.len() <= 1 || forall|i: int, j: int| 0 <= i < s.len() && 0 <= j < s.len() ==> s[i] == s[j],
    ensures
        is_sorted(s),
{
    lemma_less_is_strict_order::<T>();
    assert forall|i: int, j: int| 0 <= i < j < s.len() implies !less(#[trigger] s[j], #[trigger] s[i]) by {
        assert(s[i] == s[j]);
    }
}

/// Moves every element strictly less than the first one (the pivot) to the
/// front, places the pivot right after them, and returns its new position.
///
/// Elements equal to the pivot end up on its right. An input that is already
/// sorted is left as it is, with the pivot staying at the front.
fn partition<T: Ord>(array: &mut [T]) -> (left_count: usize)
    requires
        obeys_cmp::<T>(),
        old(array)@.len() >= 1,
    ensures
        left_count < old(array)@.len(),
        final(array)@.len() == old(array)@.len(),
        final(array)@.to_multiset() == old(array)@.to_multiset(),
        final(array)@[left_count as int] == old(array)@[0],
        forall|k: int| 0 <= k < left_count ==> less(#[trigger] final(array)@[k], old(array)@[0]),
        forall|k: int|
            left_count < k < final(array)@.len() ==> !less(#[trigger] final(array)@[k], old(array)@[0]),
        is_sorted(old(array)@) ==> left_count == 0 && final(array)@ == old(array)@,
{
    proof {
        lemma_less_is_strict_order::<T>();
    }
    let ghost start = array@;
    let ghost p = array@[0];
    let (pivot, sub_array) = array.split_at_mut(1);
    let pivot = &pivot[0];
    let ghost sub_start = sub_array@;
    assert(sub_start =~= start.subrange(1, start.len() as int));
    let mut left_count: usize = 0;
    let n: usize = sub_array.len();
    let mut i: usize = 0;
    while i < n
        invariant
            *pivot == p,
            n == sub_array@.len(),
            sub_start.len() == n,
            start.len() == n + 1,
            start[0] == p,
            sub_start == start.subrange(1, start.len() as int),
            T::obeys_partial_cmp_spec(),
            left_count <= i <= n,
            sub_array@.to_multiset() == sub_start.to_multiset(),
            forall|k: int| 0 <= k < left_count ==> less(#[trigger] sub_array@[k], p),
            forall|k: int| left_count <= k < i ==> !less(#[trigger] sub_array@[k], p),
            forall|k: int| i <= k < n ==> #[trigger] sub_array@[k] == sub_start[k],
            is_sorted(start) ==> left_count == 0 && sub_array@ == sub_start,
        decreases n - i,
    {
        if sub_array[i] < *pivot {
            proof {
                if is_sorted(start) {
                    assert(start[i + 1] == sub_start[i as int]);
                    assert(!less(start[i + 1], start[0]));
                }
            }
            swap_elements(sub_array, left_count, i);
            left_count = left_count + 1;
        }
        i = i + 1;
    }
    let ghost after_scan = seq![p] + sub_array@;
    proof {
        assert(start =~= seq![p] + sub_start);
        vstd::seq_lib::lemma_multiset_commutative(seq![p], sub_start);
        vstd::seq_lib::lemma_multiset_commutative(seq![p], sub_array@);
    }
    swap_elements(array, 0, left_count);
    proof {
        assert(array@ == after_scan.update(0, after_scan[left_count as int]).update(left_count as int, p));
        if is_sorted(start) {
            assert(after_scan =~= start);
        }
    }
    left_count
}

} // verus!
