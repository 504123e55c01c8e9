//! The contents of hash collections as lists, for walking over them.
use std::collections::{HashMap, HashSet};
use vstd::prelude::*;
use vstd::std_specs::iter::IteratorSpec;

verus! {

broadcast use vstd::std_specs::hash::group_hash_axioms;

/// The keys of a map, each once, in no particular order.
pub(crate) fn keys_of<V>(m: &HashMap<u32, V>) -> (r: Vec<u32>)
    ensures
        r@.to_set() == m@.dom(),
        r@.no_duplicates(),
{
    let mut out: Vec<u32> = Vec::new();
    for k in it: m.keys()
        invariant
            out@ == it.seq().unref().take(it.index()),
            it.seq() == m.keys().remaining(),
    {
        out.push(*k);
    }
    proof {
        let keys = m.keys().remaining();
        assert(out@ == keys.unref());
        assert(out@.no_duplicates());
    }
    out
}

/// The members of a set, each once, in no particular order.
pub(crate) fn members_of(s: &HashSet<u32>) -> (r: Vec<u32>)
    ensures
        r@.to_set() == s@,
        r@.no_duplicates(),
{
    let mut out: Vec<u32> = Vec::new();
    for k in it: s.iter()
        invariant
            out@ == it.seq().unref().take(it.index()),
            it.seq() == s.iter().remaining(),
    {
        out.push(*k);
    }
    proof {
        let members = s.iter().remaining();
        assert(out@ == members.unref());
        assert(out@.no_duplicates());
    }
    out
}

} // verus!
