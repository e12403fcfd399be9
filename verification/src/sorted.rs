//! Lists of indices in increasing order. Such a list is fixed by what it
//! holds, which is why a contract may describe one by its elements alone.

use vstd::prelude::*;

verus! {

/// Whether every element of `s` is larger than the one before it.
pub open spec fn strictly_increasing(s: Seq<usize>) -> bool {
    forall|i: int, j: int| 0 <= i < j < s.len() ==> s[i] < s[j]
}

/// Two increasing lists that hold the same elements are the same list.
pub proof fn lemma_increasing_unique(a: Seq<usize>, b: Seq<usize>)
    requires
        strictly_increasing(a),
        strictly_increasing(b),
        forall|v: usize| a.contains(v) <==> b.contains(v),
    ensures
        a == b,
    decreases a.len(),
{
    if a.len() == 0 {
        if b.len() > 0 {
            assert(b.contains(b[0]));
        }
        assert(a =~= b);
    } else {
        let top = a[a.len() - 1];
        assert(a.contains(top));
        let at = choose|at: int| 0 <= at < b.len() && b[at] == top;
        let b_top = b[b.len() - 1];
        assert(b.contains(b_top));
        let back = choose|back: int| 0 <= back < a.len() && a[back] == b_top;
        assert(top == b_top);
        let a_rest = a.drop_last();
        let b_rest = b.drop_last();
        assert forall|v: usize| a_rest.contains(v) <==> b_rest.contains(v) by {
            if a_rest.contains(v) {
                let i = choose|i: int| 0 <= i < a_rest.len() && a_rest[i] == v;
                assert(a[i] == v && v < top);
                assert(a.contains(v));
                let j = choose|j: int| 0 <= j < b.len() && b[j] == v;
                assert(j < b.len() - 1);
                assert(b_rest[j] == v);
            }
            if b_rest.contains(v) {
                let j = choose|j: int| 0 <= j < b_rest.len() && b_rest[j] == v;
                assert(b[j] == v && v < b_top);
                assert(b.contains(v));
                let i = choose|i: int| 0 <= i < a.len() && a[i] == v;
                assert(i < a.len() - 1);
                assert(a_rest[i] == v);
            }
        }
        lemma_increasing_unique(a_rest, b_rest);
        assert(a =~= a_rest.push(top));
        assert(b =~= b_rest.push(top));
    }
}

} // verus!
