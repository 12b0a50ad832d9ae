use crate::adjacency::members;
use crate::codec::{generate_vec_f64_bits_from_bytes, generate_vec_u32_from_bytes, u32_words, u64_words};
use crate::coverage::{lemma_bind_corners, MeshCoverage};
use crate::entities::{Face, Node};
use vstd::prelude::*;

verus! {

/// One entry of a coverage descriptor file.
#[derive(Debug, Clone)]
pub struct CoverageJSON {
    pub id: String,
    pub name: String,
    pub module_name: String,
    pub coverage_type: String,
}

/// The module name of the coverages that hold meshes.
pub open spec fn mesh_module() -> Seq<char> {
    seq!['m', 'e', 's', 'h']
}

impl CoverageJSON {
    /// Whether the entry describes a mesh.
    pub fn is_mesh(&self) -> (r: bool)
        ensures
            r == (self.module_name@ == mesh_module()),
    {
        let mesh = "mesh".to_owned();
        proof {
            reveal_strlit("mesh");
            assert(mesh@ =~= mesh_module());
        }
        self.module_name == mesh
    }

    /// A copy of the entry.
    pub fn duplicate(&self) -> (r: CoverageJSON)
        ensures
            same_entry(r, *self),
    {
        CoverageJSON {
            id: self.id.clone(),
            name: self.name.clone(),
            module_name: self.module_name.clone(),
            coverage_type: self.coverage_type.clone(),
        }
    }
}

/// The entries of `s` that describe meshes, in order.
pub open spec fn mesh_entries(s: Seq<CoverageJSON>) -> Seq<CoverageJSON> {
    s.filter(|c: CoverageJSON| c.module_name@ == mesh_module())
}

/// `a` and `b` hold the same text in every field.
pub open spec fn same_entry(a: CoverageJSON, b: CoverageJSON) -> bool {
    &&& a.id@ == b.id@
    &&& a.name@ == b.name@
    &&& a.module_name@ == b.module_name@
    &&& a.coverage_type@ == b.coverage_type@
}

/// The entries of a coverage descriptor that describe meshes, in order.
pub fn select_mesh_coverages(coverages: &Vec<CoverageJSON>) -> (r: Vec<CoverageJSON>)
    ensures
        r@.len() == mesh_entries(coverages@).len(),
        forall|k: int| 0 <= k < r@.len() ==> same_entry(#[trigger] r@[k], mesh_entries(coverages@)[k]),
{
    let mut selected: Vec<CoverageJSON> = Vec::new();
    for i in 0..coverages.len()
        invariant
            selected@.len() == mesh_entries(coverages@.take(i as int)).len(),
            forall|k: int|
                0 <= k < selected@.len() ==> same_entry(
                    #[trigger] selected@[k],
                    mesh_entries(coverages@.take(i as int))[k],
                ),
    {
        proof {
            assert(coverages@.take(i + 1 as int).drop_last() =~= coverages@.take(i as int));
            reveal(Seq::filter);
        }
        if coverages[i].is_mesh() {
            selected.push(coverages[i].duplicate());
        }
    }
    proof {
        assert(coverages@.take(coverages@.len() as int) =~= coverages@);
    }
    selected
}

/// Why a mesh could not be loaded.
#[derive(Debug, Clone, Copy, PartialEq, Eq, Structural)]
pub enum LoadError {
    /// The mesh holds more nodes or faces than there are ids left.
    IdsExhausted,
    /// A face names a corner that is neither stored nor in the node file.
    UnknownNode,
}

/// Loads meshes from the bytes of their node and face files.
pub struct Service {}

/// The nodes of a node file's words `w` under ids `first + 1 ..= first + count`.
pub open spec fn file_nodes(first: int, w: Seq<u64>, count: int) -> Map<u32, Node> {
    Map::new(
        |id: u32| first < id <= first + count,
        |id: u32|
            Node {
                x: w[3 * (id - first - 1)],
                y: w[3 * (id - first - 1) + 1],
                z: w[3 * (id - first - 1) + 2],
            },
    )
}

/// Face record `k` of a face file's words `w`.
pub open spec fn file_face(w: Seq<u32>, k: int) -> Face {
    Face { n0: w[4 * k], n1: w[4 * k + 1], n2: w[4 * k + 2], n3: w[4 * k + 3] }
}

/// The faces of a face file's words `w` under ids `first + 1 ..= first + count`.
pub open spec fn file_faces(first: int, w: Seq<u32>, count: int) -> Map<u32, Face> {
    Map::new(|id: u32| first < id <= first + count, |id: u32| file_face(w, id - first - 1))
}

/// `v` is a stored node, or one of the `count` nodes to be stored after id `first`.
pub open spec fn corner_known(nodes: Map<u32, Node>, first: int, count: int, v: u32) -> bool {
    nodes.contains_key(v) || (first < v <= first + count)
}

/// Every corner of `face` is known in the sense of `corner_known`.
pub open spec fn corners_known(nodes: Map<u32, Node>, first: int, count: int, face: Face) -> bool {
    forall|v: u32| #[trigger] face.has_vertex(v) ==> corner_known(nodes, first, count, v)
}

/// The ids, among those given to the file's faces, of the faces with corner `v`.
pub open spec fn file_faces_at(first: int, w: Seq<u32>, count: int, v: u32) -> Set<u32> {
    Set::new(|id: u32| first < id <= first + count && file_face(w, id - first - 1).has_vertex(v))
}

fn corner_ok(coverage: &MeshCoverage, first_node: u32, last_node: u32, v: u32) -> (r: bool)
    ensures
        r == (coverage.nodes().contains_key(v) || (first_node < v <= last_node)),
{
    coverage.has_node(v) || (first_node < v && v <= last_node)
}

impl Service {
    /// Stores the nodes of a node file (three binary64 words per node) and
    /// then the faces of a face file (four 32-bit words per face, a 0 fourth
    /// corner making a triangle) into `coverage`, under fresh ids in file
    /// order. Face corners are node ids. Partial records at the end of a
    /// file are ignored. Nothing is stored when an error is returned.
    pub fn load_mesh_bytes(coverage: &mut MeshCoverage, node_bytes: &Vec<u8>, face_bytes: &Vec<u8>) -> (r: Result<(), LoadError>)
        requires
            old(coverage).wf(),
        ensures
            final(coverage).wf(),
            ({
                let nw = u64_words(node_bytes@);
                let fw = u32_words(face_bytes@);
                let n = (nw.len() / 3) as int;
                let f = (fw.len() / 4) as int;
                let c = old(coverage).node_ids_issued() as int;
                let d = old(coverage).face_ids_issued() as int;
                let exhausted = c + n > u32::MAX || d + f > u32::MAX;
                let dangling = exists|k: int| 0 <= k < f && !corners_known(old(coverage).nodes(), c, n, #[trigger] file_face(fw, k));
                &&& (r == Err::<(), LoadError>(LoadError::IdsExhausted)) == exhausted
                &&& (r == Err::<(), LoadError>(LoadError::UnknownNode)) == (!exhausted && dangling)
                &&& r is Err ==> *final(coverage) == *old(coverage)
                &&& r is Ok ==> {
                    &&& final(coverage).nodes() == old(coverage).nodes().union_prefer_right(file_nodes(c, nw, n))
                    &&& final(coverage).faces() == old(coverage).faces().union_prefer_right(file_faces(d, fw, f))
                    &&& forall|v: u32| #[trigger] members(final(coverage).node_faces(), v)
                        == members(old(coverage).node_faces(), v).union(file_faces_at(d, fw, f, v))
                    &&& final(coverage).half_edges() == old(coverage).half_edges()
                    &&& final(coverage).face_half_edges() == old(coverage).face_half_edges()
                    &&& final(coverage).node_ids_issued() == c + n
                    &&& final(coverage).face_ids_issued() == d + f
                }
            }),
    {
        let nw = generate_vec_f64_bits_from_bytes(node_bytes);
        let fw = generate_vec_u32_from_bytes(face_bytes);
        let n = nw.len() / 3;
        let f = fw.len() / 4;
        let ghost c = coverage.node_ids_issued() as int;
        let ghost d = coverage.face_ids_issued() as int;
        let ghost nodes0 = coverage.nodes();
        if n > coverage.node_ids_left() as usize || f > coverage.face_ids_left() as usize {
            return Err(LoadError::IdsExhausted);
        }
        let first_node = u32::MAX - coverage.node_ids_left();
        let last_node = first_node + n as u32;
        let fl: usize = fw.len();
        let nl: usize = nw.len();
        let mut k: usize = 0;
        while k < f
            invariant
                coverage.wf(),
                *coverage == *old(coverage),
                fl == fw@.len(),
                n == nw@.len() / 3,
                nw@ == u64_words(node_bytes@),
                c == old(coverage).node_ids_issued(),
                d == old(coverage).face_ids_issued(),
                c + n <= u32::MAX,
                d + f <= u32::MAX,
                f == fw@.len() / 4,
                fw@ == u32_words(face_bytes@),
                first_node == c,
                last_node == c + n,
                coverage.nodes() == nodes0,
                k <= f,
                forall|j: int| 0 <= j < k ==> corners_known(nodes0, c, n as int, #[trigger] file_face(fw@, j)),
            decreases f - k,
        {
            assert(4 * k + 3 < fw@.len()) by (nonlinear_arith)
                requires
                    k < f,
                    f == fw@.len() / 4,
            ;
            let face = Face::new(fw[4 * k], fw[4 * k + 1], fw[4 * k + 2], fw[4 * k + 3]);
            assert(face == file_face(fw@, k as int));
            let known = corner_ok(coverage, first_node, last_node, face.n0) && corner_ok(
                coverage,
                first_node,
                last_node,
                face.n1,
            ) && corner_ok(coverage, first_node, last_node, face.n2) && (face.n3 == 0 || corner_ok(
                coverage,
                first_node,
                last_node,
                face.n3,
            ));
            if !known {
                proof {
                    let nn = n as int;
                    if !corner_known(nodes0, c, nn, face.n0) {
                        assert(face.has_vertex(face.n0));
                    } else if !corner_known(nodes0, c, nn, face.n1) {
                        assert(face.has_vertex(face.n1));
                    } else if !corner_known(nodes0, c, nn, face.n2) {
                        assert(face.has_vertex(face.n2));
                    } else {
                        assert(face.has_vertex(face.n3));
                    }
                    assert(!corners_known(nodes0, c, nn, file_face(fw@, k as int)));
                }
                return Err(LoadError::UnknownNode);
            }
            k = k + 1;
        }
        let ghost nf0 = coverage.node_faces();
        let ghost faces0 = coverage.faces();
        proof {
            coverage.lemma_ids_issued();
        }
        for i in 0..n
            invariant
                coverage.wf(),
                nl == nw@.len(),
                n == nw@.len() / 3,
                nw@ == u64_words(node_bytes@),
                c + n <= u32::MAX,
                coverage.nodes() == nodes0.union_prefer_right(file_nodes(c, nw@, i as int)),
                coverage.node_ids_issued() == c + i,
                coverage.face_ids_issued() == d,
                coverage.faces() == faces0,
                coverage.node_faces() == nf0,
                coverage.half_edges() == old(coverage).half_edges(),
                coverage.face_half_edges() == old(coverage).face_half_edges(),
        {
            assert(3 * i + 2 < nw@.len()) by (nonlinear_arith)
                requires
                    i < n,
                    n == nw@.len() / 3,
            ;
            coverage.create_node(nw[3 * i], nw[3 * i + 1], nw[3 * i + 2]);
            proof {
                assert(coverage.nodes() =~= nodes0.union_prefer_right(file_nodes(c, nw@, i + 1)));
            }
        }
        for j in 0..f
            invariant
                coverage.wf(),
                fl == fw@.len(),
                f == fw@.len() / 4,
                fw@ == u32_words(face_bytes@),
                d + f <= u32::MAX,
                forall|k: int| 0 <= k < f ==> corners_known(nodes0, c, n as int, #[trigger] file_face(fw@, k)),
                forall|k: u32| #[trigger] faces0.contains_key(k) ==> k <= d,
                coverage.nodes() == nodes0.union_prefer_right(file_nodes(c, nw@, n as int)),
                coverage.faces() == faces0.union_prefer_right(file_faces(d, fw@, j as int)),
                forall|v: u32| #[trigger] members(coverage.node_faces(), v)
                    == members(nf0, v).union(file_faces_at(d, fw@, j as int, v)),
                coverage.node_ids_issued() == c + n,
                coverage.face_ids_issued() == d + j,
                coverage.half_edges() == old(coverage).half_edges(),
                coverage.face_half_edges() == old(coverage).face_half_edges(),
        {
            assert(4 * j + 3 < fw@.len()) by (nonlinear_arith)
                requires
                    j < f,
                    f == fw@.len() / 4,
            ;
            let face = Face::new(fw[4 * j], fw[4 * j + 1], fw[4 * j + 2], fw[4 * j + 3]);
            proof {
                assert(face == file_face(fw@, j as int));
                assert(corners_known(nodes0, c, n as int, face));
                assert(face.has_vertex(face.n0) && face.has_vertex(face.n1) && face.has_vertex(face.n2));
                assert(face.n3 != 0 ==> face.has_vertex(face.n3));
            }
            let ghost before = *coverage;
            let id = coverage.create_face(face.n0, face.n1, face.n2, face.n3);
            proof {
                lemma_bind_corners(before.node_faces(), face, id);
                assert(coverage.faces() =~= faces0.union_prefer_right(file_faces(d, fw@, j + 1)));
                assert forall|v: u32| #[trigger] members(coverage.node_faces(), v)
                    == members(nf0, v).union(file_faces_at(d, fw@, j + 1, v)) by {
                    if face.has_vertex(v) {
                        assert(file_faces_at(d, fw@, j + 1, v) =~= file_faces_at(d, fw@, j as int, v).insert(id));
                    } else {
                        assert(file_faces_at(d, fw@, j + 1, v) =~= file_faces_at(d, fw@, j as int, v));
                    }
                    assert(members(coverage.node_faces(), v) =~= members(nf0, v).union(file_faces_at(d, fw@, j + 1, v)));
                }
            }
        }
        Ok(())
    }
}

} // verus!
