//! Facts about sequences used by the sorting and filtering loops.

use vstd::prelude::*;

verus! {

/// Exchanging two elements keeps the multiset of elements.
pub proof fn lemma_swap_multiset<A>(s: Seq<A>, i: int, j: int)
    requires
        0 <= i < s.len(),
        0 <= j < s.len(),
    ensures
        s.update(i, s[j]).update(j, s[i]).to_multiset() == s.to_multiset(),
{
    broadcast use vstd::seq_lib::group_to_multiset_ensures;
    broadcast use vstd::multiset::group_multiset_axioms;

    let x = s[i];
    let y = s[j];
    let s1 = s.update(i, y);
    if i == j {
        assert(s1.update(j, x) =~= s);
    } else {
        assert(s1[j] == y);
        let m = s.to_multiset();
        assert(s1.to_multiset() == m.insert(y).remove(x));
        assert(s1.update(j, x).to_multiset() == s1.to_multiset().insert(x).remove(y));
        assert(m.count(x) > 0);
        assert(m.insert(y).remove(x).insert(x).remove(y) =~= m);
    }
}

} // verus!
