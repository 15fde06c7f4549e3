//! Facts about sequences and the multisets of their items that the rest of
//! the crate builds on.

use vstd::prelude::*;

verus! {

/// Writing `a` at position `i` takes one occurrence of the old item out of the
/// sequence's multiset and puts one of `a` in.
pub proof fn lemma_update_to_multiset<T>(s: Seq<T>, i: int, a: T)
    requires
        0 <= i < s.len(),
    ensures
        s.update(i, a).to_multiset() == s.to_multiset().remove(s[i]).insert(a),
{
    broadcast use vstd::seq_lib::group_to_multiset_ensures;
    assert(s.update(i, a) =~= s.remove(i).insert(i, a));
    assert(s.remove(i).to_multiset() == s.to_multiset().remove(s[i]));
    assert(s.remove(i).insert(i, a).to_multiset() == s.remove(i).to_multiset().insert(a));
}

/// Taking the item at `i` out by moving the last item into its place removes
/// one occurrence of that item from the sequence's multiset.
pub proof fn lemma_swap_remove_to_multiset<T>(s: Seq<T>, i: int)
    requires
        0 <= i < s.len(),
    ensures
        s.update(i, s.last()).drop_last().to_multiset() == s.to_multiset().remove(s[i]),
{
    broadcast use vstd::seq_lib::group_to_multiset_ensures;
    let last = s.len() - 1;
    let moved = s.update(i, s.last());
    lemma_update_to_multiset(s, i, s.last());
    assert(moved.drop_last() =~= moved.remove(last));
    assert(moved.remove(last).to_multiset() == moved.to_multiset().remove(moved[last]));
    assert(s.to_multiset().count(s[i]) > 0) by {
        assert(s.contains(s[i]));
    }
    assert(moved.drop_last().to_multiset() =~= s.to_multiset().remove(s[i]));
}

} // verus!
