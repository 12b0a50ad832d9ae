use std::collections::{HashMap, HashSet};
use vstd::prelude::*;

verus! {

broadcast use vstd::std_specs::hash::group_hash_axioms;

/// A key-to-set index as mathematical sets.
pub open spec fn set_map_view(m: Map<u32, HashSet<u32>>) -> Map<u32, Set<u32>> {
    m.map_values(|s: HashSet<u32>| s@)
}

/// The set held at `key`, or the empty set where `key` has no entry.
pub open spec fn members(m: Map<u32, Set<u32>>, key: u32) -> Set<u32> {
    if m.contains_key(key) {
        m[key]
    } else {
        Set::empty()
    }
}

/// `m` after adding `value` to the set at `key`, creating the entry if needed.
pub open spec fn bound(m: Map<u32, Set<u32>>, key: u32, value: u32) -> Map<u32, Set<u32>> {
    m.insert(key, members(m, key).insert(value))
}

/// `m` after removing `value` from the set at `key`, if that entry exists.
pub open spec fn unbound(m: Map<u32, Set<u32>>, key: u32, value: u32) -> Map<u32, Set<u32>> {
    if m.contains_key(key) {
        m.insert(key, m[key].remove(value))
    } else {
        m
    }
}

fn bind_in(map: &mut HashMap<u32, HashSet<u32>>, key: u32, value: u32)
    ensures
        set_map_view(final(map)@) == bound(set_map_view(old(map)@), key, value),
{
    let mut set = match map.remove(&key) {
        Some(s) => s,
        None => HashSet::new(),
    };
    set.insert(value);
    map.insert(key, set);
    assert(set_map_view(map@) =~= bound(set_map_view(old(map)@), key, value));
}

fn unbind_in(map: &mut HashMap<u32, HashSet<u32>>, key: u32, value: u32)
    ensures
        set_map_view(final(map)@) == unbound(set_map_view(old(map)@), key, value),
{
    match map.remove(&key) {
        Some(s) => {
            let mut set = s;
            set.remove(&value);
            map.insert(key, set);
            assert(set_map_view(map@) =~= unbound(set_map_view(old(map)@), key, value));
        },
        None => {
            assert(set_map_view(map@) =~= set_map_view(old(map)@));
        },
    }
}

fn remove_key_in(map: &mut HashMap<u32, HashSet<u32>>, key: u32)
    ensures
        set_map_view(final(map)@) == set_map_view(old(map)@).remove(key),
{
    map.remove(&key);
    assert(set_map_view(map@) =~= set_map_view(old(map)@).remove(key));
}

fn get_in(map: &HashMap<u32, HashSet<u32>>, key: u32) -> (r: Option<&HashSet<u32>>)
    ensures
        match r {
            Some(s) => set_map_view(map@).contains_key(key) && s@ == set_map_view(map@)[key],
            None => !set_map_view(map@).contains_key(key),
        },
{
    map.get(&key)
}

/// For each node id, the ids of the faces that have it as a corner.
#[derive(Debug, Clone)]
pub struct NodeFaceAdj {
    map: HashMap<u32, HashSet<u32>>,
}

impl View for NodeFaceAdj {
    type V = Map<u32, Set<u32>>;

    closed spec fn view(&self) -> Map<u32, Set<u32>> {
        set_map_view(self.map@)
    }
}

impl NodeFaceAdj {
    pub fn new() -> (r: NodeFaceAdj)
        ensures
            r@ == Map::<u32, Set<u32>>::empty(),
    {
        let r = NodeFaceAdj { map: HashMap::new() };
        assert(r@ =~= Map::<u32, Set<u32>>::empty());
        r
    }

    /// Adds `face_id` to the faces of `node_id`; binding twice changes nothing more.
    pub fn bind(&mut self, node_id: u32, face_id: u32)
        ensures
            final(self)@ == bound(old(self)@, node_id, face_id),
    {
        bind_in(&mut self.map, node_id, face_id);
    }

    /// Removes `face_id` from the faces of `node_id`, if it is there.
    pub fn unbind(&mut self, node_id: u32, face_id: u32)
        ensures
            final(self)@ == unbound(old(self)@, node_id, face_id),
    {
        unbind_in(&mut self.map, node_id, face_id);
    }

    /// Drops the whole entry of `node_id`.
    pub fn remove_node(&mut self, node_id: u32)
        ensures
            final(self)@ == old(self)@.remove(node_id),
    {
        remove_key_in(&mut self.map, node_id);
    }

    pub fn get_node_adj_faces(&self, node_id: u32) -> (r: Option<&HashSet<u32>>)
        ensures
            match r {
                Some(s) => self@.contains_key(node_id) && s@ == self@[node_id],
                None => !self@.contains_key(node_id),
            },
    {
        get_in(&self.map, node_id)
    }
}

/// For each face id, the ids of the half-edges that bound it.
#[derive(Debug, Clone)]
pub struct FaceHalfEdgeAdj {
    map: HashMap<u32, HashSet<u32>>,
}

impl View for FaceHalfEdgeAdj {
    type V = Map<u32, Set<u32>>;

    closed spec fn view(&self) -> Map<u32, Set<u32>> {
        set_map_view(self.map@)
    }
}

impl FaceHalfEdgeAdj {
    pub fn new() -> (r: FaceHalfEdgeAdj)
        ensures
            r@ == Map::<u32, Set<u32>>::empty(),
    {
        let r = FaceHalfEdgeAdj { map: HashMap::new() };
        assert(r@ =~= Map::<u32, Set<u32>>::empty());
        r
    }

    /// Adds `half_edge_id` to the half-edges of `face_id`; binding twice changes nothing more.
    pub fn bind(&mut self, face_id: u32, half_edge_id: u32)
        ensures
            final(self)@ == bound(old(self)@, face_id, half_edge_id),
    {
        bind_in(&mut self.map, face_id, half_edge_id);
    }

    /// Removes `half_edge_id` from the half-edges of `face_id`, if it is there.
    pub fn unbind(&mut self, face_id: u32, half_edge_id: u32)
        ensures
            final(self)@ == unbound(old(self)@, face_id, half_edge_id),
    {
        unbind_in(&mut self.map, face_id, half_edge_id);
    }

    /// Drops the whole entry of `face_id`.
    pub fn remove_face(&mut self, face_id: u32)
        ensures
            final(self)@ == old(self)@.remove(face_id),
    {
        remove_key_in(&mut self.map, face_id);
    }

    pub fn get_face_adj_half_edges(&self, face_id: u32) -> (r: Option<&HashSet<u32>>)
        ensures
            match r {
                Some(s) => self@.contains_key(face_id) && s@ == self@[face_id],
                None => !self@.contains_key(face_id),
            },
    {
        get_in(&self.map, face_id)
    }
}

} // verus!
