//! Exchanging two elements of a slice.
use vstd::prelude::*;

verus! {

/// Exchanges the elements at positions `i` and `j`; nothing else moves.
pub fn swap_elements<T>(array: &mut [T], i: usize, j: usize)
    requires
        i < old(array)@.len(),
        j < old(array)@.len(),
    ensures
        final(array)@ == old(array)@.update(i as int, old(array)@[j as int]).update(
            j as int,
            old(array)@[i as int],
        ),
        final(array)@.to_multiset() == old(array)@.to_multiset(),
{
    broadcast use vstd::seq_lib::group_to_multiset_ensures, vstd::multiset::group_multiset_axioms;

    if i == j {
        proof {
            assert(old(array)@.update(i as int, old(array)@[j as int]) =~= old(array)@);
        }
        return;
    }
    let lo: usize = if i < j { i } else { j };
    let hi: usize = if i < j { j } else { i };
    let (front, back) = array.split_at_mut(hi);
    let (_, tail) = front.split_at_mut(lo);
    core::mem::swap(&mut tail[0], &mut back[0]);
    proof {
        let s = old(array)@;
        let t = s.update(i as int, s[j as int]);
        assert(t[j as int] == s[j as int]);
        assert(t.update(j as int, s[i as int]).to_multiset() =~= s.to_multiset());
        assert(final(array)@ =~= old(array)@.update(i as int, old(array)@[j as int]).update(
            j as int,
            old(array)@[i as int],
        ));
    }
}

} // verus!
