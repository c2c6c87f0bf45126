//! The mathematical model of ordering used by every contract of the crate.
use core::cmp::Ordering;
use vstd::laws_cmp::{obeys_cmp, obeys_cmp_ord, obeys_cmp_partial_ord, obeys_partial_cmp_spec_properties};
use vstd::laws_eq::obeys_eq_spec_properties;
use vstd::prelude::*;
use vstd::std_specs::cmp::PartialOrdSpec;

verus! {

/// `a` is strictly less than `b` under the element type's comparison.
pub open spec fn less<T: PartialOrd>(a: T, b: T) -> bool {
    a.partial_cmp_spec(&b) == Some(Ordering::Less)
}

/// Every element is not less than any element before it.
///
/// Under a total order this is the same as `s[j - 1] <= s[j]` for every
/// adjacent pair.
pub open spec fn is_sorted<T: PartialOrd>(s: Seq<T>) -> bool {
    forall|i: int, j: int| 0 <= i < j < s.len() ==> !less(#[trigger] s[j], #[trigger] s[i])
}

/// `output` is an ascending rearrangement of `input`.
pub open spec fn sorts_to<T: PartialOrd>(input: Seq<T>, output: Seq<T>) -> bool {
    &&& is_sorted(output)
    &&& output.to_multiset() == input.to_multiset()
}

/// Tells whether no element of `array` is less than the one before it.
pub fn check_sorted<T: Ord>(array: &Vec<T>) -> (r: bool)
    requires
        obeys_cmp::<T>(),
    ensures
        r == is_sorted(array@),
{
    proof {
        lemma_less_is_strict_order::<T>();
    }
    let mut j: usize = 1;
    while j < array.len()
        invariant
            T::obeys_partial_cmp_spec(),
            obeys_cmp::<T>(),
            1 <= j,
            forall|a: int, b: int| 0 <= a < b < j && b < array@.len() ==> !less(#[trigger] array@[b], #[trigger] array@[a]),
        decreases array@.len() - j,
    {
        if array[j] < array[j - 1] {
            return false;
        }
        proof {
            assert forall|a: int| 0 <= a < j implies !less(array@[j as int], #[trigger] array@[a]) by {
                if a < j - 1 {
                    lemma_not_less_chain(array@[a], array@[j - 1], array@[j as int]);
                }
            }
        }
        j = j + 1;
    }
    true
}

/// The facts about `<` that sorting relies on, for a type whose comparison
/// is a lawful total order.
pub proof fn lemma_less_is_strict_order<T: Ord>()
    requires
        obeys_cmp::<T>(),
    ensures
        T::obeys_partial_cmp_spec(),
        forall|x: T| !less(x, x),
        forall|x: T, y: T| #[trigger] less(x, y) ==> !less(y, x),
        forall|x: T, y: T, z: T| #[trigger] less(x, y) && #[trigger] less(y, z) ==> less(x, z),
{
    reveal(obeys_cmp_partial_ord);
    reveal(obeys_partial_cmp_spec_properties);
}

/// "Not less than" chains: under a lawful total order, `x <= y` and
/// `y <= z` give `x <= z`.
pub proof fn lemma_not_less_chain<T: Ord>(x: T, y: T, z: T)
    requires
        obeys_cmp::<T>(),
        !less(y, x),
        !less(z, y),
    ensures
        !less(z, x),
{
    reveal(obeys_cmp_partial_ord);
    reveal(obeys_cmp_ord);
    reveal(obeys_partial_cmp_spec_properties);
    reveal(obeys_eq_spec_properties);
    assert(x.partial_cmp_spec(&y) is Some);
    assert(y.partial_cmp_spec(&z) is Some);
    assert(z.partial_cmp_spec(&x) is Some);
    assert(y.partial_cmp_spec(&x) is Some);
    assert(z.partial_cmp_spec(&y) is Some);
    assert(x.partial_cmp_spec(&z) is Some);
}

} // verus!
