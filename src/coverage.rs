use crate::adjacency::{bound, members, unbound, FaceHalfEdgeAdj, NodeFaceAdj};
use crate::bbox::{axis_values, coordinate, lemma_spans_insert, BBox3};
use crate::entities::{Face, HalfEdge, Node};
use crate::ids::generate_id;
use crate::listing::{elements_of, is_enumeration, keys_of};
use std::collections::{HashMap, HashSet};
use vstd::prelude::*;
use vstd::set_lib::lemma_len_subset;

verus! {

broadcast use vstd::std_specs::hash::group_hash_axioms;

/// One named mesh: its nodes, faces and half-edges, the two adjacency
/// indices kept in step with them, and the allocators of its ids.
#[derive(Debug, Clone)]
pub struct MeshCoverage {
    pub id: String,
    node_map: HashMap<u32, Node>,
    face_map: HashMap<u32, Face>,
    half_edge_map: HashMap<u32, HalfEdge>,
    node_face_adj: NodeFaceAdj,
    face_half_edge_adj: FaceHalfEdgeAdj,
    last_node_id: u32,
    last_face_id: u32,
    last_half_edge_id: u32,
}

/// `after` is `before` with `node` stored under the fresh id `id`, the
/// next one of the node allocator.
pub open spec fn node_created(before: MeshCoverage, after: MeshCoverage, id: u32, node: Node) -> bool {
    &&& id == before.node_ids_issued() + 1
    &&& after.node_ids_issued() == id
    &&& !before.nodes().contains_key(id)
    &&& after.nodes() == before.nodes().insert(id, node)
    &&& after.faces() == before.faces()
    &&& after.half_edges() == before.half_edges()
    &&& after.node_faces() == before.node_faces()
    &&& after.face_half_edges() == before.face_half_edges()
    &&& after.face_ids_issued() == before.face_ids_issued()
    &&& after.half_edge_ids_issued() == before.half_edge_ids_issued()
    &&& after.name() == before.name()
}

/// A node stored by `create_node` is found again by a lookup of the
/// returned id, with exactly the coordinates it was created with.
pub proof fn lemma_lookup_after_create(
    before: MeshCoverage,
    after: MeshCoverage,
    id: u32,
    x: u64,
    y: u64,
    z: u64,
)
    requires
        before.wf(),
        node_created(before, after, id, Node { x, y, z }),
    ensures
        after.node_lookup(id) == Some(Node { x, y, z }),
{
}

/// The node-to-face index after binding `id` to each corner of `face`.
pub open spec fn bind_corners(m: Map<u32, Set<u32>>, face: Face, id: u32) -> Map<u32, Set<u32>> {
    let m3 = bound(bound(bound(m, face.n0, id), face.n1, id), face.n2, id);
    if face.is_quad() {
        bound(m3, face.n3, id)
    } else {
        m3
    }
}

/// Binding the corners of `face` adds `id` at each corner and nowhere else.
pub proof fn lemma_bind_corners(m: Map<u32, Set<u32>>, face: Face, id: u32)
    ensures
        forall|v: u32| #[trigger]
            bind_corners(m, face, id).contains_key(v) == (m.contains_key(v) || face.has_vertex(v)),
        forall|v: u32| #[trigger]
            members(bind_corners(m, face, id), v) == if face.has_vertex(v) {
                members(m, v).insert(id)
            } else {
                members(m, v)
            },
{
    assert forall|v: u32| #[trigger]
        members(bind_corners(m, face, id), v) == if face.has_vertex(v) {
            members(m, v).insert(id)
        } else {
            members(m, v)
        } by {
        if face.has_vertex(v) {
            assert(members(bind_corners(m, face, id), v) =~= members(m, v).insert(id));
        }
    }
}

/// The node-to-face index after unbinding `id` from each corner of `face`.
pub open spec fn unbind_corners(m: Map<u32, Set<u32>>, face: Face, id: u32) -> Map<u32, Set<u32>> {
    let m3 = unbound(unbound(unbound(m, face.n0, id), face.n1, id), face.n2, id);
    if face.is_quad() {
        unbound(m3, face.n3, id)
    } else {
        m3
    }
}

/// Unbinding the corners of `face` removes `id` at each corner and nowhere else.
proof fn lemma_unbind_corners(m: Map<u32, Set<u32>>, face: Face, id: u32)
    ensures
        forall|v: u32| #[trigger] unbind_corners(m, face, id).contains_key(v) == m.contains_key(v),
        forall|v: u32| #[trigger]
            members(unbind_corners(m, face, id), v) == if face.has_vertex(v) {
                members(m, v).remove(id)
            } else {
                members(m, v)
            },
{
    assert forall|v: u32| #[trigger]
        members(unbind_corners(m, face, id), v) == if face.has_vertex(v) {
            members(m, v).remove(id)
        } else {
            members(m, v)
        } by {
        if face.has_vertex(v) {
            assert(members(unbind_corners(m, face, id), v) =~= members(m, v).remove(id));
        }
    }
}

/// The ids of the stored faces that have `node` as a corner.
pub open spec fn faces_touching(faces: Map<u32, Face>, node: u32) -> Set<u32> {
    Set::new(|f: u32| faces.contains_key(f) && faces[f].has_vertex(node))
}

/// The ids issued for the half-edges of one face after `c`: three, or
/// four for a quad.
pub open spec fn new_edge_ids(c: u32, quad: bool) -> Set<u32> {
    let three = set![(c + 1) as u32, (c + 2) as u32, (c + 3) as u32];
    if quad {
        three.insert((c + 4) as u32)
    } else {
        three
    }
}

/// In `after`, half-edge `id` runs `start` -> `end` in face `face_id` between
/// `prev` and `next`, with a twin that was an acceptable outcome in `before`.
pub open spec fn built(
    before: MeshCoverage,
    after: MeshCoverage,
    id: u32,
    start: u32,
    end: u32,
    face_id: u32,
    prev: u32,
    next: u32,
) -> bool {
    &&& after.half_edges().contains_key(id)
    &&& after.half_edges()[id].start_id == start
    &&& after.half_edges()[id].end_id == end
    &&& after.half_edges()[id].face_id == face_id
    &&& after.half_edges()[id].prev_id == prev
    &&& after.half_edges()[id].next_id == next
    &&& before.twin_ok(start, end, face_id, after.half_edges()[id].twin_id)
}

/// Building half-edges for `face_id` alone leaves the twin candidates of
/// its edges as they were.
proof fn lemma_same_twins(a: MeshCoverage, b: MeshCoverage, start: u32, end: u32, face_id: u32)
    requires
        a.wf(),
        b.wf(),
        a.node_faces() == b.node_faces(),
        forall|f: u32| f != face_id ==> #[trigger] members(a.face_half_edges(), f) == members(b.face_half_edges(), f),
        forall|h: u32| #[trigger] a.half_edges().contains_key(h) ==> b.half_edges().contains_key(h) && b.half_edges()[h] == a.half_edges()[h],
    ensures
        forall|t: u32| a.twin_ok(start, end, face_id, t) == b.twin_ok(start, end, face_id, t),
{
    assert forall|h: u32| a.is_twin_candidate(h, start, end, face_id) == b.is_twin_candidate(h, start, end, face_id) by {
        if b.is_twin_candidate(h, start, end, face_id) {
            let f = choose|f: u32|
                f != face_id && members(b.node_faces(), start).contains(f)
                    && #[trigger] members(b.face_half_edges(), f).contains(h);
            assert(members(a.face_half_edges(), f).contains(h));
        }
        if a.is_twin_candidate(h, start, end, face_id) {
            let f = choose|f: u32|
                f != face_id && members(a.node_faces(), start).contains(f)
                    && #[trigger] members(a.face_half_edges(), f).contains(h);
            assert(members(b.face_half_edges(), f).contains(h));
        }
    }
}

/// Taking in one more node adds its coordinate to the values of an axis.
proof fn lemma_axis_values_insert(nodes: Map<u32, Node>, ids: Set<u32>, id: u32, axis: int)
    requires
        nodes.contains_key(id),
    ensures
        axis_values(nodes, ids.insert(id), axis) == axis_values(nodes, ids, axis).insert(
            coordinate(nodes[id], axis),
        ),
{
    assert(axis_values(nodes, ids.insert(id), axis) =~= axis_values(nodes, ids, axis).insert(
        coordinate(nodes[id], axis),
    ));
}

/// The triangle index triples of the faces listed in `order`, in that order.
pub open spec fn triangle_list(faces: Map<u32, Face>, order: Seq<u32>) -> Seq<u32>
    decreases order.len(),
{
    if order.len() == 0 {
        Seq::empty()
    } else {
        triangle_list(faces, order.drop_last()) + faces[order.last()].triangle_indices()
    }
}

/// The edge index pairs of the faces listed in `order`, in that order.
pub open spec fn edge_list(faces: Map<u32, Face>, order: Seq<u32>) -> Seq<u32>
    decreases order.len(),
{
    if order.len() == 0 {
        Seq::empty()
    } else {
        edge_list(faces, order.drop_last()) + faces[order.last()].edge_indices()
    }
}

/// The coordinates of the nodes listed in `order`, three per node.
pub open spec fn coordinate_list(nodes: Map<u32, Node>, order: Seq<u32>) -> Seq<u64>
    decreases order.len(),
{
    if order.len() == 0 {
        Seq::empty()
    } else {
        let n = nodes[order.last()];
        coordinate_list(nodes, order.drop_last()) + seq![n.x, n.y, n.z]
    }
}

/// `positions` names, entry by entry, the place in `order` of each id of `ids`.
pub open spec fn remaps(positions: Seq<u32>, order: Seq<u32>, ids: Seq<u32>) -> bool {
    &&& positions.len() == ids.len()
    &&& forall|k: int|
        0 <= k < positions.len() ==> (#[trigger] positions[k] as int) < order.len()
            && order[positions[k] as int] == ids[k]
}

/// Every entry of an edge list is a corner of one of the listed faces.
proof fn lemma_edge_list_corners(faces: Map<u32, Face>, order: Seq<u32>, k: int)
    requires
        0 <= k < edge_list(faces, order).len(),
    ensures
        exists|f: int| 0 <= f < order.len() && #[trigger] faces[order[f]].has_vertex(edge_list(faces, order)[k]),
    decreases order.len(),
{
    let prefix = edge_list(faces, order.drop_last());
    assert(order.len() > 0);
    let last = (order.len() - 1) as int;
    let e = faces[order[last]].edge_indices();
    assert(edge_list(faces, order) == prefix + e);
    if k < prefix.len() {
        lemma_edge_list_corners(faces, order.drop_last(), k);
        let f = choose|f: int| 0 <= f < order.drop_last().len() && #[trigger] faces[order.drop_last()[f]].has_vertex(prefix[k]);
        assert(order[f] == order.drop_last()[f]);
        assert(edge_list(faces, order)[k] == prefix[k]);
        assert(faces[order[f]].has_vertex(edge_list(faces, order)[k]));
    } else {
        assert(edge_list(faces, order)[k] == e[k - prefix.len()]);
        assert(faces[order[last]].has_vertex(e[k - prefix.len()]));
    }
}

/// The edge of the loop of stored face `f` from its corner `k` to the next
/// corner has a half-edge bound to `f` that runs along it.
pub open spec fn edge_covered(cov: MeshCoverage, f: u32, k: int) -> bool {
    let corners = cov.faces()[f].corners();
    exists|h: u32|
        #[trigger] members(cov.face_half_edges(), f).contains(h) && cov.half_edges().contains_key(h)
            && cov.half_edges()[h].start_id == corners[k]
            && cov.half_edges()[h].end_id == corners[(k + 1) % (corners.len() as int)]
            && cov.half_edges()[h].face_id == f
}

/// Every edge of the loop of stored face `f` has a half-edge bound to `f`
/// that runs along it.
pub open spec fn loop_built(cov: MeshCoverage, f: u32) -> bool {
    forall|k: int| 0 <= k < cov.faces()[f].corners().len() ==> #[trigger] edge_covered(cov, f, k)
}

/// A built loop stays built while its face's half-edges are left alone.
proof fn lemma_loop_built_kept(a: MeshCoverage, b: MeshCoverage, f: u32)
    requires
        loop_built(a, f),
        a.faces() == b.faces(),
        members(a.face_half_edges(), f) == members(b.face_half_edges(), f),
        forall|h: u32| #[trigger]
            a.half_edges().contains_key(h) ==> b.half_edges().contains_key(h) && b.half_edges()[h] == a.half_edges()[h],
    ensures
        loop_built(b, f),
{
    let corners = a.faces()[f].corners();
    assert forall|k: int| 0 <= k < corners.len() implies #[trigger] edge_covered(b, f, k) by {
        assert(edge_covered(a, f, k));
        let h = choose|h: u32|
            #[trigger] members(a.face_half_edges(), f).contains(h) && a.half_edges().contains_key(h)
                && a.half_edges()[h].start_id == corners[k]
                && a.half_edges()[h].end_id == corners[(k + 1) % (corners.len() as int)]
                && a.half_edges()[h].face_id == f;
        assert(members(b.face_half_edges(), f).contains(h));
        assert(b.half_edges()[h] == a.half_edges()[h]);
    }
}

/// The half-edges made by `create_face_half_edges` build the face's loop.
proof fn lemma_loop_built_new(before: MeshCoverage, after: MeshCoverage, f: u32)
    requires
        before.faces().contains_key(f),
        after.faces() == before.faces(),
        ({
            let face = before.faces()[f];
            let c = before.half_edge_ids_issued();
            let last = if face.n3 != 0 { (c + 4) as u32 } else { (c + 3) as u32 };
            &&& c + (if face.n3 != 0 { 4int } else { 3int }) <= u32::MAX
            &&& after.face_half_edges() == before.face_half_edges().insert(
                f,
                members(before.face_half_edges(), f).union(new_edge_ids(c, face.n3 != 0)),
            )
            &&& built(before, after, (c + 1) as u32, face.n0, face.n1, f, last, (c + 2) as u32)
            &&& built(before, after, (c + 2) as u32, face.n1, face.n2, f, (c + 1) as u32, (c + 3) as u32)
            &&& face.n3 == 0 ==> built(before, after, (c + 3) as u32, face.n2, face.n0, f, (c + 2) as u32, (c + 1) as u32)
            &&& face.n3 != 0 ==> built(before, after, (c + 3) as u32, face.n2, face.n3, f, (c + 2) as u32, (c + 4) as u32)
            &&& face.n3 != 0 ==> built(before, after, (c + 4) as u32, face.n3, face.n0, f, (c + 3) as u32, (c + 1) as u32)
        }),
    ensures
        loop_built(after, f),
{
    let face = before.faces()[f];
    let c = before.half_edge_ids_issued();
    let corners = face.corners();
    let ids = new_edge_ids(c, face.n3 != 0);
    assert(members(after.face_half_edges(), f) == members(before.face_half_edges(), f).union(ids));
    assert forall|k: int| 0 <= k < corners.len() implies #[trigger] edge_covered(after, f, k) by {
        let h = (c + 1 + k) as u32;
        assert(ids.contains(h));
        assert(members(after.face_half_edges(), f).contains(h));
    }
}

impl MeshCoverage {
    /// The name of the coverage.
    pub closed spec fn name(&self) -> Seq<char> {
        self.id@
    }

    pub closed spec fn nodes(&self) -> Map<u32, Node> {
        self.node_map@
    }

    pub closed spec fn faces(&self) -> Map<u32, Face> {
        self.face_map@
    }

    pub closed spec fn half_edges(&self) -> Map<u32, HalfEdge> {
        self.half_edge_map@
    }

    /// For each node id, the faces that have it as a corner.
    pub closed spec fn node_faces(&self) -> Map<u32, Set<u32>> {
        self.node_face_adj@
    }

    /// For each face id, the half-edges built for it.
    pub closed spec fn face_half_edges(&self) -> Map<u32, Set<u32>> {
        self.face_half_edge_adj@
    }

    /// The last node id issued (0 before the first).
    pub closed spec fn node_ids_issued(&self) -> u32 {
        self.last_node_id
    }

    pub closed spec fn face_ids_issued(&self) -> u32 {
        self.last_face_id
    }

    pub closed spec fn half_edge_ids_issued(&self) -> u32 {
        self.last_half_edge_id
    }

    /// The result of looking up node `id`.
    pub open spec fn node_lookup(&self, id: u32) -> Option<Node> {
        if self.nodes().contains_key(id) {
            Some(self.nodes()[id])
        } else {
            None
        }
    }

    /// `h` is a stored half-edge running from `end` to `start`.
    pub open spec fn reverses(&self, h: u32, start: u32, end: u32) -> bool {
        &&& self.half_edges().contains_key(h)
        &&& self.half_edges()[h].start_id == end
        &&& self.half_edges()[h].end_id == start
    }

    /// `h` may serve as the twin of the edge `start` -> `end` of face
    /// `face_id`: it reverses that edge and is bound to another face that
    /// has `start` as a corner.
    pub open spec fn is_twin_candidate(&self, h: u32, start: u32, end: u32, face_id: u32) -> bool {
        &&& self.reverses(h, start, end)
        &&& exists|f: u32|
            f != face_id && members(self.node_faces(), start).contains(f)
                && #[trigger] members(self.face_half_edges(), f).contains(h)
    }

    /// `t` is an acceptable outcome of twin resolution: a candidate when
    /// one exists, 0 otherwise.
    pub open spec fn twin_ok(&self, start: u32, end: u32, face_id: u32, t: u32) -> bool {
        if exists|h: u32| self.is_twin_candidate(h, start, end, face_id) {
            self.is_twin_candidate(t, start, end, face_id)
        } else {
            t == 0
        }
    }

    /// There are never more nodes than 32-bit positions.
    proof fn lemma_node_count(&self)
        requires
            self.wf(),
        ensures
            self.nodes().dom().len() <= u32::MAX,
    {
        let c = self.last_node_id;
        if c == 0 {
            assert(self.nodes().dom() =~= Set::<u32>::empty());
        } else {
            let issued = Set::<u32>::range(1, c).insert(c);
            assert(self.nodes().dom().subset_of(issued));
            lemma_len_subset(self.nodes().dom(), issued);
        }
    }

    /// Every stored id was issued by this coverage, and none is 0.
    pub proof fn lemma_ids_issued(&self)
        requires
            self.wf(),
        ensures
            forall|k: u32| #[trigger] self.nodes().contains_key(k) ==> 0 < k <= self.node_ids_issued(),
            forall|k: u32| #[trigger] self.faces().contains_key(k) ==> 0 < k <= self.face_ids_issued(),
            forall|k: u32| #[trigger]
                self.half_edges().contains_key(k) ==> 0 < k <= self.half_edge_ids_issued(),
    {
    }

    /// Every id in use was issued by this coverage's allocators; every face
    /// corner is a stored node; the node-to-face index holds exactly the
    /// corner relation of the stored faces; and the face-to-half-edge index
    /// names stored half-edges only.
    pub closed spec fn wf(&self) -> bool {
        &&& forall|k: u32| #[trigger]
            self.node_map@.contains_key(k) ==> 0 < k <= self.last_node_id
        &&& forall|k: u32| #[trigger]
            self.face_map@.contains_key(k) ==> 0 < k <= self.last_face_id
        &&& forall|k: u32| #[trigger]
            self.half_edge_map@.contains_key(k) ==> 0 < k <= self.last_half_edge_id
        &&& forall|f: u32, v: u32|
            self.face_map@.contains_key(f) && #[trigger] self.face_map@[f].has_vertex(v)
                ==> self.node_map@.contains_key(v)
        &&& forall|f: u32, v: u32|
            self.face_map@.contains_key(f) && #[trigger] self.face_map@[f].has_vertex(v)
                ==> self.node_face_adj@.contains_key(v) && self.node_face_adj@[v].contains(f)
        &&& forall|v: u32, f: u32|
            self.node_face_adj@.contains_key(v) && #[trigger] self.node_face_adj@[v].contains(f)
                ==> self.face_map@.contains_key(f) && self.face_map@[f].has_vertex(v)
        &&& forall|f: u32, h: u32|
            self.face_half_edge_adj@.contains_key(f) && #[trigger] self.face_half_edge_adj@[f].contains(h)
                ==> self.half_edge_map@.contains_key(h)
    }

    pub fn new(id: String) -> (r: MeshCoverage)
        ensures
            r.wf(),
            r.name() == id@,
            r.nodes() == Map::<u32, Node>::empty(),
            r.faces() == Map::<u32, Face>::empty(),
            r.half_edges() == Map::<u32, HalfEdge>::empty(),
            r.node_faces() == Map::<u32, Set<u32>>::empty(),
            r.face_half_edges() == Map::<u32, Set<u32>>::empty(),
            r.node_ids_issued() == 0,
            r.face_ids_issued() == 0,
            r.half_edge_ids_issued() == 0,
    {
        MeshCoverage {
            id,
            node_map: HashMap::new(),
            face_map: HashMap::new(),
            half_edge_map: HashMap::new(),
            node_face_adj: NodeFaceAdj::new(),
            face_half_edge_adj: FaceHalfEdgeAdj::new(),
            last_node_id: 0,
            last_face_id: 0,
            last_half_edge_id: 0,
        }
    }

    /// An empty coverage whose allocators go on after the given numbers of
    /// ids already issued, so that coverages can share one id space.
    pub fn with_issued_ids(id: String, nodes: u32, faces: u32, half_edges: u32) -> (r: MeshCoverage)
        ensures
            r.wf(),
            r.name() == id@,
            r.nodes() == Map::<u32, Node>::empty(),
            r.faces() == Map::<u32, Face>::empty(),
            r.half_edges() == Map::<u32, HalfEdge>::empty(),
            r.node_faces() == Map::<u32, Set<u32>>::empty(),
            r.face_half_edges() == Map::<u32, Set<u32>>::empty(),
            r.node_ids_issued() == nodes,
            r.face_ids_issued() == faces,
            r.half_edge_ids_issued() == half_edges,
    {
        MeshCoverage {
            id,
            node_map: HashMap::new(),
            face_map: HashMap::new(),
            half_edge_map: HashMap::new(),
            node_face_adj: NodeFaceAdj::new(),
            face_half_edge_adj: FaceHalfEdgeAdj::new(),
            last_node_id: nodes,
            last_face_id: faces,
            last_half_edge_id: half_edges,
        }
    }

    pub fn query_node_by_id(&self, id: u32) -> (r: Option<Node>)
        ensures
            r == self.node_lookup(id),
    {
        match self.node_map.get(&id) {
            Some(n) => Some(*n),
            None => None,
        }
    }

    pub fn query_face_by_id(&self, id: u32) -> (r: Option<Face>)
        ensures
            r == self.faces().get(id),
    {
        match self.face_map.get(&id) {
            Some(f) => Some(*f),
            None => None,
        }
    }

    pub fn query_half_edge_by_id(&self, id: u32) -> (r: Option<HalfEdge>)
        ensures
            r == self.half_edges().get(id),
    {
        match self.half_edge_map.get(&id) {
            Some(h) => Some(*h),
            None => None,
        }
    }

    /// How many node ids are left to issue.
    pub fn node_ids_left(&self) -> (r: u32)
        ensures
            r == u32::MAX - self.node_ids_issued(),
    {
        u32::MAX - self.last_node_id
    }

    /// How many face ids are left to issue.
    pub fn face_ids_left(&self) -> (r: u32)
        ensures
            r == u32::MAX - self.face_ids_issued(),
    {
        u32::MAX - self.last_face_id
    }

    /// How many half-edge ids are left to issue.
    pub fn half_edge_ids_left(&self) -> (r: u32)
        ensures
            r == u32::MAX - self.half_edge_ids_issued(),
    {
        u32::MAX - self.last_half_edge_id
    }

    pub fn has_node(&self, id: u32) -> (r: bool)
        ensures
            r == self.nodes().contains_key(id),
    {
        self.node_map.contains_key(&id)
    }

    pub fn node_count(&self) -> (r: usize)
        ensures
            r == self.nodes().len(),
    {
        self.node_map.len()
    }

    pub fn face_count(&self) -> (r: usize)
        ensures
            r == self.faces().len(),
    {
        self.face_map.len()
    }

    /// The node-to-face index.
    pub fn node_face_adj(&self) -> (r: &NodeFaceAdj)
        ensures
            r@ == self.node_faces(),
    {
        &self.node_face_adj
    }

    /// The face-to-half-edge index.
    pub fn face_half_edge_adj(&self) -> (r: &FaceHalfEdgeAdj)
        ensures
            r@ == self.face_half_edges(),
    {
        &self.face_half_edge_adj
    }

    /// Stores a node under a fresh id and returns the id.
    pub fn create_node(&mut self, x: u64, y: u64, z: u64) -> (id: u32)
        requires
            old(self).wf(),
            old(self).node_ids_issued() < u32::MAX,
        ensures
            final(self).wf(),
            node_created(*old(self), *final(self), id, Node { x, y, z }),
    {
        let new_id = generate_id(&mut self.last_node_id);
        let new_node = Node::new(x, y, z);
        self.node_map.insert(new_id, new_node);
        new_id
    }

    /// Stores a face over the given corners under a fresh id, binds the id
    /// to each corner in the node-to-face index, and returns the id.
    /// `n3 == 0` makes a triangle. The corners must be stored nodes.
    pub fn create_face(&mut self, n0: u32, n1: u32, n2: u32, n3: u32) -> (id: u32)
        requires
            old(self).wf(),
            old(self).face_ids_issued() < u32::MAX,
            old(self).nodes().contains_key(n0),
            old(self).nodes().contains_key(n1),
            old(self).nodes().contains_key(n2),
            n3 == 0 || old(self).nodes().contains_key(n3),
        ensures
            final(self).wf(),
            id == old(self).face_ids_issued() + 1,
            final(self).face_ids_issued() == id,
            !old(self).faces().contains_key(id),
            final(self).faces() == old(self).faces().insert(id, Face { n0, n1, n2, n3 }),
            final(self).node_faces() == bind_corners(old(self).node_faces(), Face { n0, n1, n2, n3 }, id),
            final(self).node_faces()[n0] == members(old(self).node_faces(), n0).insert(id),
            final(self).node_faces()[n1] == members(old(self).node_faces(), n1).insert(id),
            final(self).node_faces()[n2] == members(old(self).node_faces(), n2).insert(id),
            n3 != 0 ==> final(self).node_faces()[n3] == members(old(self).node_faces(), n3).insert(id),
            n3 == 0 ==> final(self).node_faces().get(0) == old(self).node_faces().get(0),
            final(self).nodes() == old(self).nodes(),
            final(self).half_edges() == old(self).half_edges(),
            final(self).face_half_edges() == old(self).face_half_edges(),
            final(self).node_ids_issued() == old(self).node_ids_issued(),
            final(self).half_edge_ids_issued() == old(self).half_edge_ids_issued(),
            final(self).name() == old(self).name(),
    {
        let new_id = generate_id(&mut self.last_face_id);
        self.node_face_adj.bind(n0, new_id);
        self.node_face_adj.bind(n1, new_id);
        self.node_face_adj.bind(n2, new_id);
        if n3 > 0 {
            self.node_face_adj.bind(n3, new_id);
        }
        let new_face = Face::new(n0, n1, n2, n3);
        self.face_map.insert(new_id, new_face);
        proof {
            let m = old(self).node_face_adj@;
            lemma_bind_corners(m, new_face, new_id);
            assert(self.node_face_adj@ == bind_corners(m, new_face, new_id));
            assert(!new_face.has_vertex(0));
        }
        new_id
    }

    /// Removes face `face_id`: it leaves the face store, the sets of the
    /// node-to-face index, and the face-to-half-edge index. Its half-edge
    /// records stay in the half-edge store.
    pub fn remove_face(&mut self, face_id: u32)
        requires
            old(self).wf(),
        ensures
            final(self).wf(),
            final(self).faces() == old(self).faces().remove(face_id),
            final(self).face_half_edges() == old(self).face_half_edges().remove(face_id),
            final(self).node_faces() == old(self).node_faces().map_values(
                |s: Set<u32>| s.remove(face_id),
            ),
            forall|v: u32|
                old(self).faces().contains_key(face_id) && #[trigger] old(self).faces()[face_id].has_vertex(v)
                    ==> final(self).node_faces().contains_key(v) && !final(self).node_faces()[v].contains(face_id),
            final(self).nodes() == old(self).nodes(),
            final(self).half_edges() == old(self).half_edges(),
            final(self).node_ids_issued() == old(self).node_ids_issued(),
            final(self).face_ids_issued() == old(self).face_ids_issued(),
            final(self).half_edge_ids_issued() == old(self).half_edge_ids_issued(),
            final(self).name() == old(self).name(),
    {
        match self.face_map.get(&face_id) {
            Some(f) => {
                let face = *f;
                self.node_face_adj.unbind(face.n0, face_id);
                self.node_face_adj.unbind(face.n1, face_id);
                self.node_face_adj.unbind(face.n2, face_id);
                if face.n3 > 0 {
                    self.node_face_adj.unbind(face.n3, face_id);
                }
                proof {
                    lemma_unbind_corners(old(self).node_face_adj@, face, face_id);
                    assert(self.node_face_adj@ == unbind_corners(old(self).node_face_adj@, face, face_id));
                }
            },
            None => {},
        }
        self.face_map.remove(&face_id);
        self.face_half_edge_adj.remove_face(face_id);
        proof {
            let m = old(self).node_face_adj@;
            assert(self.node_face_adj@ =~= m.map_values(|s: Set<u32>| s.remove(face_id))) by {
                assert forall|v: u32| #[trigger] m.contains_key(v) implies
                    self.node_face_adj@[v] == m[v].remove(face_id) by {
                    if !m[v].contains(face_id) {
                        assert(m[v].remove(face_id) =~= m[v]);
                    }
                }
            }
        }
    }

    /// Removes node `node_id` and, with it, every face that has it as a
    /// corner: those faces leave the face store, the face-to-half-edge index
    /// and the sets of all their corners in the node-to-face index; the
    /// node's own entry in that index goes too.
    pub fn remove_node(&mut self, node_id: u32)
        requires
            old(self).wf(),
        ensures
            final(self).wf(),
            final(self).nodes() == old(self).nodes().remove(node_id),
            final(self).faces() == old(self).faces().remove_keys(
                faces_touching(old(self).faces(), node_id),
            ),
            forall|f: u32|
                old(self).faces().contains_key(f) && #[trigger] old(self).faces()[f].has_vertex(node_id)
                    ==> !final(self).faces().contains_key(f),
            !final(self).node_faces().contains_key(node_id),
            final(self).node_faces() == old(self).node_faces().map_values(
                |s: Set<u32>| s.difference(faces_touching(old(self).faces(), node_id)),
            ).remove(node_id),
            final(self).face_half_edges() == old(self).face_half_edges().remove_keys(
                faces_touching(old(self).faces(), node_id),
            ),
            final(self).half_edges() == old(self).half_edges(),
            final(self).node_ids_issued() == old(self).node_ids_issued(),
            final(self).face_ids_issued() == old(self).face_ids_issued(),
            final(self).half_edge_ids_issued() == old(self).half_edge_ids_issued(),
            final(self).name() == old(self).name(),
    {
        let ghost touching = faces_touching(old(self).faces(), node_id);
        let adjacent: Vec<u32> = match self.node_face_adj.get_node_adj_faces(node_id) {
            Some(set) => elements_of(set),
            None => Vec::new(),
        };
        proof {
            assert(adjacent@.to_set() =~= touching);
        }
        let ghost old_faces = old(self).face_map@;
        let ghost old_links = old(self).face_half_edge_adj@;
        let ghost old_index = old(self).node_face_adj@;
        proof {
            assert(adjacent@.take(0).to_set() =~= Set::<u32>::empty());
            assert forall|v: u32| #[trigger] old_index.contains_key(v) implies
                old_index[v].difference(Set::<u32>::empty()) =~= old_index[v] by {}
            assert(old_index.map_values(|s: Set<u32>| s.difference(adjacent@.take(0).to_set())) =~= old_index);
            assert(old_faces.remove_keys(adjacent@.take(0).to_set()) =~= old_faces);
            assert(old_links.remove_keys(adjacent@.take(0).to_set()) =~= old_links);
        }
        for i in 0..adjacent.len()
            invariant
                self.wf(),
                adjacent@.to_set() == touching,
                touching == faces_touching(old_faces, node_id),
                self.face_map@ == old_faces.remove_keys(adjacent@.take(i as int).to_set()),
                self.face_half_edge_adj@ == old_links.remove_keys(adjacent@.take(i as int).to_set()),
                self.node_face_adj@ == old_index.map_values(
                    |s: Set<u32>| s.difference(adjacent@.take(i as int).to_set()),
                ),
                self.node_map@ == old(self).node_map@,
                self.half_edge_map@ == old(self).half_edge_map@,
                self.last_node_id == old(self).last_node_id,
                self.last_face_id == old(self).last_face_id,
                self.last_half_edge_id == old(self).last_half_edge_id,
                self.id@ == old(self).id@,
        {
            let f = adjacent[i];
            let ghost before = adjacent@.take(i as int).to_set();
            self.remove_face(f);
            proof {
                let after = adjacent@.take(i + 1 as int).to_set();
                assert(adjacent@.take(i + 1 as int) =~= adjacent@.take(i as int) + seq![f]);
                Seq::lemma_to_set_insert_commutes(adjacent@.take(i as int), f);
                assert(after =~= before.insert(f));
                assert forall|v: u32| #[trigger] old_index.contains_key(v) implies
                    old_index[v].difference(before).remove(f) =~= old_index[v].difference(after) by {}
                assert(self.face_map@ =~= old_faces.remove_keys(after));
                assert(self.face_half_edge_adj@ =~= old_links.remove_keys(after));
                assert(self.node_face_adj@ =~= old_index.map_values(|s: Set<u32>| s.difference(after)));
            }
        }
        proof {
            assert(adjacent@.take(adjacent@.len() as int) =~= adjacent@);
        }
        self.node_map.remove(&node_id);
        self.node_face_adj.remove_node(node_id);
    }

    /// Looks for the half-edge opposite to the directed edge `start_id` ->
    /// `end_id` of face `face_id`: a stored half-edge `end_id` -> `start_id`
    /// bound to another face that has `start_id` as a corner. Returns its id,
    /// or 0 when there is none. Which one is returned when several qualify
    /// depends on the indices' iteration order.
    pub fn find_twin(&self, start_id: u32, end_id: u32, face_id: u32) -> (r: u32)
        requires
            self.wf(),
        ensures
            self.twin_ok(start_id, end_id, face_id, r),
    {
        match self.node_face_adj.get_node_adj_faces(start_id) {
            Some(face_set) => {
                let faces = elements_of(face_set);
                for i in 0..faces.len()
                    invariant
                        self.wf(),
                        faces@.to_set() == members(self.node_faces(), start_id),
                        forall|j: int, h: u32|
                            0 <= j < i && faces@[j] != face_id
                                && #[trigger] members(self.face_half_edges(), faces@[j]).contains(h)
                                ==> !self.reverses(h, start_id, end_id),
                {
                    let f = faces[i];
                    if f != face_id {
                        match self.face_half_edge_adj.get_face_adj_half_edges(f) {
                            Some(edge_set) => {
                                let edges = elements_of(edge_set);
                                for k in 0..edges.len()
                                    invariant
                                        self.wf(),
                                        faces@.to_set() == members(self.node_faces(), start_id),
                                        0 <= i < faces@.len(),
                                        f == faces@[i as int],
                                        f != face_id,
                                        self.face_half_edges().contains_key(f),
                                        edges@.to_set() == self.face_half_edges()[f],
                                        forall|l: int|
                                            0 <= l < k ==> !self.reverses(
                                                #[trigger] edges@[l],
                                                start_id,
                                                end_id,
                                            ),
                                {
                                    let h = edges[k];
                                    assert(edges@.to_set().contains(h));
                                    match self.half_edge_map.get(&h) {
                                        Some(edge) => {
                                            if edge.start_id == end_id && edge.end_id == start_id {
                                                proof {
                                                    assert(faces@.contains(f));
                                                    assert(faces@.to_set().contains(f));
                                                    assert(members(self.face_half_edges(), f).contains(h));
                                                    assert(self.reverses(h, start_id, end_id));
                                                    assert(self.is_twin_candidate(h, start_id, end_id, face_id));
                                                }
                                                return h;
                                            }
                                        },
                                        None => {},
                                    }
                                }
                                proof {
                                    assert forall|h: u32| #[trigger]
                                        members(self.face_half_edges(), f).contains(h) implies
                                        !self.reverses(h, start_id, end_id) by {
                                        assert(edges@.to_set().contains(h));
                                    }
                                }
                            },
                            None => {},
                        }
                    }
                }
                proof {
                    assert forall|h: u32| !self.is_twin_candidate(h, start_id, end_id, face_id) by {
                        if self.is_twin_candidate(h, start_id, end_id, face_id) {
                            let f = choose|f: u32|
                                f != face_id && members(self.node_faces(), start_id).contains(f)
                                    && #[trigger] members(self.face_half_edges(), f).contains(h);
                            assert(faces@.to_set().contains(f));
                            let j = choose|j: int| 0 <= j < faces@.len() && faces@[j] == f;
                        }
                    }
                }
            },
            None => {},
        }
        0
    }

    /// Stores the half-edge `id` for the directed edge `start_id` -> `end_id`
    /// of face `face_id` with the given loop neighbours, resolving its twin
    /// against the half-edges already built, and binds it to the face.
    /// `id` must be an issued id that is not in use yet.
    pub fn create_half_edge(
        &mut self,
        id: u32,
        start_id: u32,
        end_id: u32,
        face_id: u32,
        prev_id: u32,
        next_id: u32,
    )
        requires
            old(self).wf(),
            0 < id <= old(self).half_edge_ids_issued(),
            !old(self).half_edges().contains_key(id),
        ensures
            final(self).wf(),
            final(self).half_edges() == old(self).half_edges().insert(
                id,
                HalfEdge {
                    start_id,
                    end_id,
                    face_id,
                    prev_id,
                    next_id,
                    twin_id: final(self).half_edges()[id].twin_id,
                },
            ),
            old(self).twin_ok(start_id, end_id, face_id, final(self).half_edges()[id].twin_id),
            final(self).face_half_edges() == bound(old(self).face_half_edges(), face_id, id),
            final(self).nodes() == old(self).nodes(),
            final(self).faces() == old(self).faces(),
            final(self).node_faces() == old(self).node_faces(),
            final(self).node_ids_issued() == old(self).node_ids_issued(),
            final(self).face_ids_issued() == old(self).face_ids_issued(),
            final(self).half_edge_ids_issued() == old(self).half_edge_ids_issued(),
            final(self).name() == old(self).name(),
    {
        let twin_id = self.find_twin(start_id, end_id, face_id);
        let half_edge = HalfEdge::new(start_id, end_id, face_id, prev_id, next_id, twin_id);
        self.face_half_edge_adj.bind(face_id, id);
        self.half_edge_map.insert(id, half_edge);
    }

    /// Builds the half-edges of the loop `n0, n1, n2` (and `n3` when it is
    /// not 0) of face `face_id` under fresh ids: each carries its directed
    /// edge, the face, and its neighbours in the loop, and gets as twin a
    /// half-edge of another, already built face that reverses it (0 if none).
    pub fn create_face_half_edges(&mut self, n0: u32, n1: u32, n2: u32, n3: u32, face_id: u32)
        requires
            old(self).wf(),
            old(self).half_edge_ids_issued() + (if n3 != 0 { 4int } else { 3int }) <= u32::MAX,
        ensures
            final(self).wf(),
            final(self).half_edge_ids_issued() == old(self).half_edge_ids_issued() + (if n3 != 0 {
                4int
            } else {
                3int
            }),
            final(self).half_edges().dom() == old(self).half_edges().dom().union(
                new_edge_ids(old(self).half_edge_ids_issued(), n3 != 0),
            ),
            forall|h: u32| #[trigger]
                old(self).half_edges().contains_key(h) ==> final(self).half_edges()[h]
                    == old(self).half_edges()[h],
            final(self).face_half_edges() == old(self).face_half_edges().insert(
                face_id,
                members(old(self).face_half_edges(), face_id).union(
                    new_edge_ids(old(self).half_edge_ids_issued(), n3 != 0),
                ),
            ),
            ({
                let c = old(self).half_edge_ids_issued();
                let last = if n3 != 0 { (c + 4) as u32 } else { (c + 3) as u32 };
                &&& built(*old(self), *final(self), (c + 1) as u32, n0, n1, face_id, last, (c + 2) as u32)
                &&& built(*old(self), *final(self), (c + 2) as u32, n1, n2, face_id, (c + 1) as u32, (c + 3) as u32)
                &&& n3 == 0 ==> built(*old(self), *final(self), (c + 3) as u32, n2, n0, face_id, (c + 2) as u32, (c + 1) as u32)
                &&& n3 != 0 ==> built(*old(self), *final(self), (c + 3) as u32, n2, n3, face_id, (c + 2) as u32, (c + 4) as u32)
                &&& n3 != 0 ==> built(*old(self), *final(self), (c + 4) as u32, n3, n0, face_id, (c + 3) as u32, (c + 1) as u32)
            }),
            final(self).nodes() == old(self).nodes(),
            final(self).faces() == old(self).faces(),
            final(self).node_faces() == old(self).node_faces(),
            final(self).node_ids_issued() == old(self).node_ids_issued(),
            final(self).face_ids_issued() == old(self).face_ids_issued(),
            final(self).name() == old(self).name(),
    {
        let ghost start = *self;
        let half_edge_0_id = generate_id(&mut self.last_half_edge_id);
        let half_edge_1_id = generate_id(&mut self.last_half_edge_id);
        let half_edge_2_id = generate_id(&mut self.last_half_edge_id);
        let mut last_half_edge_id = half_edge_2_id;
        if n3 > 0 {
            let half_edge_3_id = generate_id(&mut self.last_half_edge_id);
            last_half_edge_id = half_edge_3_id;
            let ghost before = *self;
            self.create_half_edge(half_edge_3_id, n3, n0, face_id, half_edge_2_id, half_edge_0_id);
            proof { lemma_same_twins(start, before, n3, n0, face_id); }
        }
        let ghost before = *self;
        self.create_half_edge(half_edge_0_id, n0, n1, face_id, last_half_edge_id, half_edge_1_id);
        proof { lemma_same_twins(start, before, n0, n1, face_id); }
        let ghost before = *self;
        self.create_half_edge(half_edge_1_id, n1, n2, face_id, half_edge_0_id, half_edge_2_id);
        proof { lemma_same_twins(start, before, n1, n2, face_id); }
        let ghost before = *self;
        if n3 > 0 {
            self.create_half_edge(half_edge_2_id, n2, n3, face_id, half_edge_1_id, last_half_edge_id);
            proof { lemma_same_twins(start, before, n2, n3, face_id); }
        } else {
            self.create_half_edge(half_edge_2_id, n2, n0, face_id, half_edge_1_id, half_edge_0_id);
            proof { lemma_same_twins(start, before, n2, n0, face_id); }
        }
        proof {
            let c = start.last_half_edge_id;
            assert(self.half_edge_map@.dom() =~= start.half_edge_map@.dom().union(new_edge_ids(c, n3 != 0)));
            assert(self.face_half_edge_adj@[face_id] =~= members(start.face_half_edge_adj@, face_id).union(
                new_edge_ids(c, n3 != 0),
            ));
            assert(self.face_half_edge_adj@ =~= start.face_half_edge_adj@.insert(
                face_id,
                members(start.face_half_edge_adj@, face_id).union(new_edge_ids(c, n3 != 0)),
            ));
        }
    }

    /// The bounding box of all stored nodes.
    pub fn get_bbox3(&self) -> (r: BBox3)
        ensures
            r.is_extent_of(self.nodes(), self.nodes().dom()),
    {
        let keys = keys_of(&self.node_map);
        let mut bbox3 = BBox3::new();
        proof {
            assert(keys@.take(0).to_set() =~= Set::<u32>::empty());
            assert forall|a: int| 0 <= a < 3 implies
                axis_values(self.nodes(), Set::<u32>::empty(), a) =~= Set::<u64>::empty() by {}
            assert(axis_values(self.nodes(), Set::<u32>::empty(), 0) =~= Set::<u64>::empty());
            assert(axis_values(self.nodes(), Set::<u32>::empty(), 1) =~= Set::<u64>::empty());
            assert(axis_values(self.nodes(), Set::<u32>::empty(), 2) =~= Set::<u64>::empty());
        }
        for i in 0..keys.len()
            invariant
                is_enumeration(keys@, self.nodes().dom()),
                bbox3.is_extent_of(self.nodes(), keys@.take(i as int).to_set()),
        {
            let id = keys[i];
            assert(keys@.to_set().contains(id));
            let node = *self.node_map.get(&id).unwrap();
            let ghost before = keys@.take(i as int).to_set();
            let ghost box_before = bbox3;
            bbox3.eat(node);
            proof {
                assert(keys@.take(i + 1 as int) =~= keys@.take(i as int) + seq![id]);
                Seq::lemma_to_set_insert_commutes(keys@.take(i as int), id);
                let after = keys@.take(i + 1 as int).to_set();
                assert(after =~= before.insert(id));
                lemma_axis_values_insert(self.nodes(), before, id, 0);
                lemma_axis_values_insert(self.nodes(), before, id, 1);
                lemma_axis_values_insert(self.nodes(), before, id, 2);
                lemma_spans_insert(box_before.min_x, box_before.max_x, axis_values(self.nodes(), before, 0), node.x);
                lemma_spans_insert(box_before.min_y, box_before.max_y, axis_values(self.nodes(), before, 1), node.y);
                lemma_spans_insert(box_before.min_z, box_before.max_z, axis_values(self.nodes(), before, 2), node.z);
            }
        }
        proof {
            assert(keys@.take(keys@.len() as int) =~= keys@);
        }
        bbox3
    }

    /// Triangle index triples over node ids: one per triangle face, two per
    /// quad (split along its `n0`-`n2` diagonal), faces in the store's
    /// iteration order.
    pub fn generate_face_buffer(&self) -> (r: Vec<u32>)
        ensures
            exists|order: Seq<u32>|
                is_enumeration(order, self.faces().dom()) && r@ == triangle_list(self.faces(), order),
    {
        let keys = keys_of(&self.face_map);
        let mut indexes: Vec<u32> = Vec::new();
        for i in 0..keys.len()
            invariant
                is_enumeration(keys@, self.faces().dom()),
                indexes@ == triangle_list(self.faces(), keys@.take(i as int)),
        {
            let id = keys[i];
            assert(keys@.to_set().contains(id));
            let face = *self.face_map.get(&id).unwrap();
            if face.n3 > 0 {
                indexes.push(face.n0);
                indexes.push(face.n1);
                indexes.push(face.n2);
                indexes.push(face.n2);
                indexes.push(face.n3);
                indexes.push(face.n0);
            } else {
                indexes.push(face.n0);
                indexes.push(face.n1);
                indexes.push(face.n2);
            }
            proof {
                let next = keys@.take(i + 1 as int);
                assert(next.drop_last() =~= keys@.take(i as int));
                assert(indexes@ =~= triangle_list(self.faces(), next));
            }
        }
        proof {
            assert(keys@.take(keys@.len() as int) =~= keys@);
        }
        indexes
    }

    /// Node id pairs of every edge of every face loop, the closing edge
    /// included, faces in the store's iteration order: a wireframe.
    pub fn generate_half_edge_buffer(&self) -> (r: Vec<u32>)
        ensures
            exists|order: Seq<u32>|
                is_enumeration(order, self.faces().dom()) && r@ == edge_list(self.faces(), order),
    {
        let keys = keys_of(&self.face_map);
        let mut indexes: Vec<u32> = Vec::new();
        for i in 0..keys.len()
            invariant
                is_enumeration(keys@, self.faces().dom()),
                indexes@ == edge_list(self.faces(), keys@.take(i as int)),
        {
            let id = keys[i];
            assert(keys@.to_set().contains(id));
            let face = *self.face_map.get(&id).unwrap();
            if face.n3 > 0 {
                indexes.push(face.n0);
                indexes.push(face.n1);
                indexes.push(face.n1);
                indexes.push(face.n2);
                indexes.push(face.n2);
                indexes.push(face.n3);
                indexes.push(face.n3);
                indexes.push(face.n0);
            } else {
                indexes.push(face.n0);
                indexes.push(face.n1);
                indexes.push(face.n1);
                indexes.push(face.n2);
                indexes.push(face.n2);
                indexes.push(face.n0);
            }
            proof {
                let next = keys@.take(i + 1 as int);
                assert(next.drop_last() =~= keys@.take(i as int));
                assert(indexes@ =~= edge_list(self.faces(), next));
            }
        }
        proof {
            assert(keys@.take(keys@.len() as int) =~= keys@);
        }
        indexes
    }

    /// Dense render buffers: the coordinates of every node, three per node
    /// in the store's iteration order, and the wireframe of
    /// `generate_half_edge_buffer` with each node id replaced by the
    /// position of its node in the coordinate list.
    pub fn generate_buffer(&self) -> (r: (Vec<u64>, Vec<u32>))
        requires
            self.wf(),
        ensures
            r.0@.len() == 3 * self.nodes().len(),
            forall|k: int| 0 <= k < r.1@.len() ==> (#[trigger] r.1@[k] as int) < self.nodes().len(),
            exists|node_order: Seq<u32>, face_order: Seq<u32>|
                #![trigger is_enumeration(node_order, self.nodes().dom()), is_enumeration(face_order, self.faces().dom())]
                is_enumeration(node_order, self.nodes().dom()) && is_enumeration(
                    face_order,
                    self.faces().dom(),
                ) && r.0@ == coordinate_list(self.nodes(), node_order) && remaps(
                    r.1@,
                    node_order,
                    edge_list(self.faces(), face_order),
                ),
    {
        let keys = keys_of(&self.node_map);
        proof {
            self.lemma_node_count();
        }
        let mut coordinates: Vec<u64> = Vec::new();
        let mut position: HashMap<u32, u32> = HashMap::new();
        for i in 0..keys.len()
            invariant
                is_enumeration(keys@, self.nodes().dom()),
                keys@.len() <= u32::MAX,
                coordinates@ == coordinate_list(self.nodes(), keys@.take(i as int)),
                coordinates@.len() == 3 * i,
                position@.dom() == keys@.take(i as int).to_set(),
                forall|id: u32| #[trigger]
                    position@.contains_key(id) ==> position@[id] < i && keys@[position@[id] as int] == id,
        {
            let id = keys[i];
            assert(keys@.to_set().contains(id));
            let node = *self.node_map.get(&id).unwrap();
            coordinates.push(node.x);
            coordinates.push(node.y);
            coordinates.push(node.z);
            position.insert(id, i as u32);
            proof {
                let next = keys@.take(i + 1 as int);
                assert(next =~= keys@.take(i as int) + seq![id]);
                assert(next.drop_last() =~= keys@.take(i as int));
                Seq::lemma_to_set_insert_commutes(keys@.take(i as int), id);
                assert(coordinates@ =~= coordinate_list(self.nodes(), next));
            }
        }
        proof {
            assert(keys@.take(keys@.len() as int) =~= keys@);
        }
        let ids = self.generate_half_edge_buffer();
        let ghost face_order = choose|order: Seq<u32>|
            is_enumeration(order, self.faces().dom()) && ids@ == edge_list(self.faces(), order);
        let mut indexes: Vec<u32> = Vec::new();
        for j in 0..ids.len()
            invariant
                is_enumeration(keys@, self.nodes().dom()),
                is_enumeration(face_order, self.faces().dom()),
                ids@ == edge_list(self.faces(), face_order),
                self.wf(),
                position@.dom() == keys@.to_set(),
                forall|id: u32| #[trigger]
                    position@.contains_key(id) ==> position@[id] < keys@.len() && keys@[position@[id] as int] == id,
                indexes@.len() == j,
                forall|k: int| 0 <= k < j ==> (#[trigger] indexes@[k] as int) < keys@.len() && keys@[indexes@[k] as int] == ids@[k],
        {
            let id = ids[j];
            proof {
                lemma_edge_list_corners(self.faces(), face_order, j as int);
                let f = choose|f: int| 0 <= f < face_order.len() && #[trigger] self.faces()[face_order[f]].has_vertex(id);
                assert(face_order.to_set().contains(face_order[f]));
                assert(self.nodes().contains_key(id));
                assert(keys@.to_set().contains(id));
            }
            let p = *position.get(&id).unwrap();
            indexes.push(p);
        }
        proof {
            assert(remaps(indexes@, keys@, edge_list(self.faces(), face_order)));
            assert(coordinates@ == coordinate_list(self.nodes(), keys@));
            assert(is_enumeration(keys@, self.nodes().dom()) && is_enumeration(face_order, self.faces().dom())
                && coordinates@ == coordinate_list(self.nodes(), keys@)
                && remaps(indexes@, keys@, edge_list(self.faces(), face_order)));
        }
        (coordinates, indexes)
    }

    /// Builds the half-edges of every stored face, one face after another
    /// in the store's iteration order.
    pub fn generate_half_edges(&mut self)
        requires
            old(self).wf(),
            old(self).half_edge_ids_issued() + 4 * old(self).faces().len() <= u32::MAX,
        ensures
            final(self).wf(),
            forall|f: u32| #[trigger] old(self).faces().contains_key(f) ==> loop_built(*final(self), f),
            forall|h: u32| #[trigger]
                old(self).half_edges().contains_key(h) ==> final(self).half_edges().contains_key(h)
                    && final(self).half_edges()[h] == old(self).half_edges()[h],
            final(self).half_edge_ids_issued() <= old(self).half_edge_ids_issued() + 4 * old(self).faces().len(),
            final(self).nodes() == old(self).nodes(),
            final(self).faces() == old(self).faces(),
            final(self).node_faces() == old(self).node_faces(),
            final(self).node_ids_issued() == old(self).node_ids_issued(),
            final(self).face_ids_issued() == old(self).face_ids_issued(),
            final(self).name() == old(self).name(),
    {
        let keys = keys_of(&self.face_map);
        for i in 0..keys.len()
            invariant
                self.wf(),
                is_enumeration(keys@, old(self).faces().dom()),
                self.half_edge_ids_issued() <= old(self).half_edge_ids_issued() + 4 * i,
                old(self).half_edge_ids_issued() + 4 * keys@.len() <= u32::MAX,
                forall|j: int| 0 <= j < i ==> loop_built(*self, #[trigger] keys@[j]),
                forall|h: u32| #[trigger]
                    old(self).half_edges().contains_key(h) ==> self.half_edges().contains_key(h)
                        && self.half_edges()[h] == old(self).half_edges()[h],
                self.nodes() == old(self).nodes(),
                self.faces() == old(self).faces(),
                self.node_faces() == old(self).node_faces(),
                self.node_ids_issued() == old(self).node_ids_issued(),
                self.face_ids_issued() == old(self).face_ids_issued(),
                self.name() == old(self).name(),
        {
            let id = keys[i];
            assert(keys@.to_set().contains(id));
            let face = *self.face_map.get(&id).unwrap();
            let ghost before = *self;
            self.create_face_half_edges(face.n0, face.n1, face.n2, face.n3, id);
            proof {
                lemma_loop_built_new(before, *self, id);
                assert forall|j: int| 0 <= j < i + 1 implies loop_built(*self, #[trigger] keys@[j]) by {
                    if j < i {
                        assert(keys@[j] != id);
                        lemma_loop_built_kept(before, *self, keys@[j]);
                    }
                }
            }
        }
        proof {
            assert forall|f: u32| #[trigger] old(self).faces().contains_key(f) implies loop_built(*self, f) by {
                assert(keys@.to_set().contains(f));
                let j = choose|j: int| 0 <= j < keys@.len() && keys@[j] == f;
            }
        }
    }
}

} // verus!
