//! Hash tables with integer keys.

use std::collections::HashMap;
use std::hash::Hash;
use vstd::prelude::*;
use vstd::std_specs::hash::obeys_key_model;

verus! {

broadcast use vstd::std_specs::hash::group_hash_axioms;

/// The keys of a table, each once.
pub fn keys_of<K: Copy + Eq + Hash, V>(m: &HashMap<K, V>) -> (r: Vec<K>)
    requires
        obeys_key_model::<K>(),
    ensures
        r@.no_duplicates(),
        forall|k: K| #[trigger] m@.contains_key(k) <==> r@.contains(k),
{
    let mut out: Vec<K> = Vec::new();
    for k in it: m.keys()
        invariant
            out@ == it.seq().unref().subrange(0, it.index() as int),
            it.seq().unref().to_set() == m@.dom(),
            it.seq().no_duplicates(),
            it.index() == it.seq().len() ==> out@.to_set() == m@.dom(),
            out@.no_duplicates(),
    {
        out.push(*k);
        proof {
            let all = it.seq().unref();
            assert(out@ =~= all.subrange(0, it.index() + 1));
            if it.index() + 1 == it.seq().len() {
                assert(out@ =~= all);
            }
            assert forall|i: int, j: int| 0 <= i < j < out@.len() implies out@[i] != out@[j] by {
                assert(it.seq()[i] != it.seq()[j]);
            }
        }
    }
    proof {
        assert forall|k: K| #[trigger] m@.contains_key(k) <==> out@.contains(k) by {
            assert(out@.to_set().contains(k) <==> out@.contains(k));
        }
    }
    out
}

} // verus!
