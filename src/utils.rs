use std::collections::HashSet;
use vstd::prelude::*;

verus! {

broadcast use vstd::std_specs::hash::group_hash_axioms;

/// Number of distinct values in `sequence`.
pub fn unique(sequence: &Vec<u64>) -> (r: usize)
    ensures
        r == sequence@.to_set().len(),
{
    let mut seen: HashSet<u64> = HashSet::new();
    let mut i: usize = 0;
    while i < sequence.len()
        invariant
            i <= sequence@.len(),
            seen@ == sequence@.take(i as int).to_set(),
        decreases sequence@.len() - i,
    {
        let x = sequence[i];
        seen.insert(x);
        let ghost prefix = sequence@.take(i as int);
        let ghost next = sequence@.take(i + 1);
        assert forall|v: u64| #[trigger] next.contains(v) <==> prefix.to_set().insert(x).contains(v) by {
            if next.contains(v) {
                let j = choose|j: int| 0 <= j < next.len() && next[j] == v;
                if j < i {
                    assert(prefix[j] == v);
                }
            }
            if prefix.contains(v) {
                let j = choose|j: int| 0 <= j < prefix.len() && prefix[j] == v;
                assert(next[j] == v);
            }
            if v == x {
                assert(next[i as int] == v);
            }
        }
        assert(next.to_set() =~= prefix.to_set().insert(x));
        i = i + 1;
    }
    assert(sequence@.take(sequence@.len() as int) =~= sequence@);
    seen.len()
}

} // verus!
