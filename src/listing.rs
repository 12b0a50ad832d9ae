use std::collections::{HashMap, HashSet};
use vstd::prelude::*;
use vstd::std_specs::iter::IteratorSpec;

verus! {

broadcast use vstd::std_specs::hash::group_hash_axioms;

/// `order` lists each element of `dom` exactly once.
pub open spec fn is_enumeration(order: Seq<u32>, dom: Set<u32>) -> bool {
    &&& order.no_duplicates()
    &&& order.to_set() == dom
    &&& order.len() == dom.len()
}

/// The keys of a map, each once, in the map's own iteration order.
pub fn keys_of<V>(m: &HashMap<u32, V>) -> (r: Vec<u32>)
    ensures
        is_enumeration(r@, m@.dom()),
{
    let mut r: Vec<u32> = Vec::new();
    for k in it: m.keys()
        invariant
            it.seq() == m.keys().remaining(),
            r@.len() == it.index(),
            forall|i: int| 0 <= i < it.index() ==> r@[i] == *it.seq()[i],
    {
        r.push(*k);
    }
    assert(r@ == m.keys().remaining().unref());
    r
}

/// The elements of a set, each once, in the set's own iteration order.
pub fn elements_of(s: &HashSet<u32>) -> (r: Vec<u32>)
    ensures
        is_enumeration(r@, s@),
{
    let mut r: Vec<u32> = Vec::new();
    for k in it: s.iter()
        invariant
            it.seq() == s.iter().remaining(),
            r@.len() == it.index(),
            forall|i: int| 0 <= i < it.index() ==> r@[i] == *it.seq()[i],
    {
        r.push(*k);
    }
    assert(r@ == s.iter().remaining().unref());
    r
}

} // verus!
