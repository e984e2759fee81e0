//! Listing the members of hash sets and the keys of hash maps, in the order in
//! which they are walked.
use vstd::prelude::*;
use std::collections::{HashMap, HashSet};
use vstd::std_specs::hash::*;
use vstd::std_specs::iter::IteratorSpec;

verus! {

broadcast use vstd::std_specs::hash::group_hash_axioms;

/// The members of a set, each once, in the order in which the set is walked.
pub fn set_elements(s: &HashSet<u64>) -> (r: Vec<u64>)
    ensures
        r@.to_set() == s@,
        r@.no_duplicates(),
        r@.len() == s@.len(),
{
    let mut out: Vec<u64> = Vec::new();
    for x in it: s.iter()
        invariant
            it.seq() == spec_hash_keys_iter(s).remaining(),
            out@ == it.seq().take(it.index() as int).map_values(|p: &u64| *p),
    {
        out.push(*x);
    }
    proof {
        let w = spec_hash_keys_iter(s).remaining();
        assert(w.take(w.len() as int) == w);
        assert(w.unref() =~= w.map_values(|p: &u64| *p));
    }
    out
}

/// The keys of a map, each once, in the order in which the map is walked.
pub fn map_keys<K: Copy, V>(m: &HashMap<K, V>) -> (r: Vec<K>)
    requires
        obeys_key_model::<K>(),
    ensures
        r@.to_set() == m@.dom(),
        r@.no_duplicates(),
        r@.len() == m@.dom().len(),
{
    let mut out: Vec<K> = Vec::new();
    for x in it: m.keys()
        invariant
            obeys_key_model::<K>(),
            it.seq() == spec_keys_iter(m).remaining(),
            out@ == it.seq().take(it.index() as int).map_values(|p: &K| *p),
    {
        out.push(*x);
    }
    proof {
        let w = spec_keys_iter(m).remaining();
        assert(w.take(w.len() as int) == w);
        assert(w.unref() =~= w.map_values(|p: &K| *p));
    }
    out
}

} // verus!
