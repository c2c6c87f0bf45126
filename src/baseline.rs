//! A slow but simple sort over `i32`, kept to compare [`crate::sort`] against.
use vstd::prelude::*;

use crate::order::{is_sorted, less, sorts_to};
use crate::swap::swap_elements;

verus! {

/// Sorts `array` in place by repeatedly moving the smallest remaining
/// element (the first one, among equals) to the front of the unsorted part.
pub fn selection_sort(array: &mut [i32])
    ensures
        sorts_to(old(array)@, final(array)@),
{
    let ghost start = array@;
    let n: usize = array.len();
    if n < 1 {
        return;
    }
    let mut i: usize = 0;
    while i < n
        invariant
            n == array@.len(),
            i <= n,
            array@.to_multiset() == start.to_multiset(),
            forall|a: int, b: int| 0 <= a < b < i ==> array@[a] <= array@[b],
            forall|a: int, b: int| 0 <= a < i <= b < n ==> array@[a] <= array@[b],
        decreases n - i,
    {
        let mut min_index: usize = i;
        let mut j: usize = i + 1;
        while j < n
            invariant
                n == array@.len(),
                i < n,
                i <= min_index < j <= n,
                forall|k: int| i <= k < j ==> array@[min_index as int] <= array@[k],
            decreases n - j,
        {
            if array[j] < array[min_index] {
                min_index = j;
            }
            j = j + 1;
        }
        swap_elements(array, i, min_index);
        i = i + 1;
    }
    proof {
        assert(is_sorted(array@));
    }
}

/// Two ascending rearrangements of the same integers are equal element for
/// element: whatever sorts `input` (this baseline or [`crate::sort`]) yields
/// the same sequence.
pub proof fn lemma_sorted_outputs_agree(input: Seq<i32>, a: Seq<i32>, b: Seq<i32>)
    requires
        sorts_to(input, a),
        sorts_to(input, b),
    ensures
        a == b,
    decreases a.len(),
{
    broadcast use vstd::seq_lib::group_to_multiset_ensures, vstd::multiset::group_multiset_axioms;

    assert(a.to_multiset().len() == b.to_multiset().len());
    if a.len() == 0 {
        assert(a =~= b);
        return;
    }
    assert(a.to_multiset().count(b[0]) > 0);
    assert(b.to_multiset().count(a[0]) > 0);
    let ka = choose|k: int| 0 <= k < a.len() && a[k] == b[0];
    let kb = choose|k: int| 0 <= k < b.len() && b[k] == a[0];
    assert(a[0] <= a[ka]) by {
        if ka > 0 {
            assert(!less(a[ka], a[0]));
        }
    }
    assert(b[0] <= b[kb]) by {
        if kb > 0 {
            assert(!less(b[kb], b[0]));
        }
    }
    let rest_a = a.remove(0);
    let rest_b = b.remove(0);
    assert(rest_a.to_multiset() == rest_b.to_multiset());
    assert forall|i: int, j: int| 0 <= i < j < rest_a.len() implies !less(
        #[trigger] rest_a[j],
        #[trigger] rest_a[i],
    ) by {
        assert(rest_a[i] == a[i + 1] && rest_a[j] == a[j + 1]);
    }
    assert forall|i: int, j: int| 0 <= i < j < rest_b.len() implies !less(
        #[trigger] rest_b[j],
        #[trigger] rest_b[i],
    ) by {
        assert(rest_b[i] == b[i + 1] && rest_b[j] == b[j + 1]);
    }
    lemma_sorted_outputs_agree(rest_a, rest_a, rest_b);
    assert forall|i: int| 0 <= i < a.len() implies a[i] == b[i] by {
        if i > 0 {
            assert(a[i] == rest_a[i - 1] && b[i] == rest_b[i - 1]);
        }
    }
    assert(a =~= b);
}

} // verus!
