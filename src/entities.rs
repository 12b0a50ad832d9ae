use vstd::prelude::*;

verus! {

/// A mesh vertex. Each coordinate is held as the bit pattern of an
/// IEEE-754 binary64 number, exactly as the node file stores it.
#[derive(Clone, Copy, Debug, PartialEq, Eq, Structural)]
pub struct Node {
    pub x: u64,
    pub y: u64,
    pub z: u64,
}

impl Node {
    pub fn new(x: u64, y: u64, z: u64) -> (r: Node)
        ensures
            r == (Node { x, y, z }),
    {
        Node { x, y, z }
    }
}

/// A face over node ids: a triangle `n0, n1, n2` when `n3` is 0,
/// a quad `n0, n1, n2, n3` otherwise.
#[derive(Clone, Copy, Debug, PartialEq, Eq, Structural)]
pub struct Face {
    pub n0: u32,
    pub n1: u32,
    pub n2: u32,
    pub n3: u32,
}

impl Face {
    pub fn new(n0: u32, n1: u32, n2: u32, n3: u32) -> (r: Face)
        ensures
            r == (Face { n0, n1, n2, n3 }),
    {
        Face { n0, n1, n2, n3 }
    }

    pub open spec fn is_quad(self) -> bool {
        self.n3 != 0
    }

    /// `v` is one of the corners of the face (`n3` counts only for a quad).
    pub open spec fn has_vertex(self, v: u32) -> bool {
        v == self.n0 || v == self.n1 || v == self.n2 || (self.is_quad() && v == self.n3)
    }

    /// The corners of the face in loop order.
    pub open spec fn corners(self) -> Seq<u32> {
        if self.is_quad() {
            seq![self.n0, self.n1, self.n2, self.n3]
        } else {
            seq![self.n0, self.n1, self.n2]
        }
    }

    /// Node ids of the triangles that cover the face: the face itself, or a
    /// quad split along its `n0`-`n2` diagonal.
    pub open spec fn triangle_indices(self) -> Seq<u32> {
        if self.is_quad() {
            seq![self.n0, self.n1, self.n2, self.n2, self.n3, self.n0]
        } else {
            seq![self.n0, self.n1, self.n2]
        }
    }

    /// Node id pairs of every edge of the face's loop, the closing edge included.
    pub open spec fn edge_indices(self) -> Seq<u32> {
        if self.is_quad() {
            seq![self.n0, self.n1, self.n1, self.n2, self.n2, self.n3, self.n3, self.n0]
        } else {
            seq![self.n0, self.n1, self.n1, self.n2, self.n2, self.n0]
        }
    }
}

/// One directed edge of a face's loop. `twin_id` is 0 when no opposite
/// half-edge was found.
#[derive(Clone, Copy, Debug, PartialEq, Eq, Structural)]
pub struct HalfEdge {
    pub start_id: u32,
    pub end_id: u32,
    pub face_id: u32,
    pub prev_id: u32,
    pub next_id: u32,
    pub twin_id: u32,
}

impl HalfEdge {
    pub fn new(
        start_id: u32,
        end_id: u32,
        face_id: u32,
        prev_id: u32,
        next_id: u32,
        twin_id: u32,
    ) -> (r: HalfEdge)
        ensures
            r == (HalfEdge { start_id, end_id, face_id, prev_id, next_id, twin_id }),
    {
        HalfEdge { start_id, end_id, face_id, prev_id, next_id, twin_id }
    }
}

} // verus!
