use crate::entities::Node;
use vstd::prelude::*;

verus! {

/// Bit pattern of binary64 positive infinity.
pub const POSITIVE_INFINITY_BITS: u64 = 0x7FF0_0000_0000_0000;

/// Bit pattern of binary64 negative infinity.
pub const NEGATIVE_INFINITY_BITS: u64 = 0xFFF0_0000_0000_0000;

/// The rank of a binary64 bit pattern in the IEEE-754 total order (the
/// order of `f64::total_cmp`): patterns with the sign bit clear rank by
/// their value, those with it set below them and in reverse.
pub open spec fn total_order_key(bits: u64) -> int {
    if bits < 0x8000_0000_0000_0000 {
        bits as int
    } else {
        0x7FFF_FFFF_FFFF_FFFF - bits as int
    }
}

/// Whether `a` comes strictly before `b` in the IEEE-754 total order.
pub fn precedes(a: u64, b: u64) -> (r: bool)
    ensures
        r == (total_order_key(a) < total_order_key(b)),
{
    rank(a) < rank(b)
}

fn rank(bits: u64) -> (k: i64)
    ensures
        k == total_order_key(bits),
{
    if bits < 0x8000_0000_0000_0000 {
        bits as i64
    } else {
        -((bits - 0x8000_0000_0000_0000) as i64) - 1
    }
}

/// The lower of `current` and `value`; `current` on a tie.
pub open spec fn lower(current: u64, value: u64) -> u64 {
    if total_order_key(value) < total_order_key(current) {
        value
    } else {
        current
    }
}

/// The higher of `current` and `value`; `current` on a tie.
pub open spec fn upper(current: u64, value: u64) -> u64 {
    if total_order_key(value) > total_order_key(current) {
        value
    } else {
        current
    }
}

/// Coordinate `axis` (0, 1, 2 for x, y, z) of a node.
pub open spec fn coordinate(n: Node, axis: int) -> u64 {
    if axis == 0 {
        n.x
    } else if axis == 1 {
        n.y
    } else {
        n.z
    }
}

/// The values on `axis` of the nodes of `nodes` whose ids are in `ids`.
pub open spec fn axis_values(nodes: Map<u32, Node>, ids: Set<u32>, axis: int) -> Set<u64> {
    Set::new(
        |u: u64|
            exists|id: u32|
                ids.contains(id) && nodes.contains_key(id) && #[trigger] coordinate(nodes[id], axis) == u,
    )
}

/// `lo` and `hi` are the least and the greatest of `vals` together with the
/// starting bounds (positive infinity for `lo`, negative infinity for `hi`).
pub open spec fn spans(lo: u64, hi: u64, vals: Set<u64>) -> bool {
    &&& lo == POSITIVE_INFINITY_BITS || vals.contains(lo)
    &&& total_order_key(lo) <= total_order_key(POSITIVE_INFINITY_BITS)
    &&& forall|u: u64| #[trigger] vals.contains(u) ==> total_order_key(lo) <= total_order_key(u)
    &&& hi == NEGATIVE_INFINITY_BITS || vals.contains(hi)
    &&& total_order_key(NEGATIVE_INFINITY_BITS) <= total_order_key(hi)
    &&& forall|u: u64| #[trigger] vals.contains(u) ==> total_order_key(u) <= total_order_key(hi)
}

/// Widening the bounds by one value keeps them the exact extent.
pub proof fn lemma_spans_insert(lo: u64, hi: u64, vals: Set<u64>, v: u64)
    requires
        spans(lo, hi, vals),
    ensures
        spans(lower(lo, v), upper(hi, v), vals.insert(v)),
{
}

/// An axis-aligned bounding box of nodes, each bound a binary64 bit pattern.
#[derive(Clone, Copy, Debug, PartialEq, Eq, Structural)]
pub struct BBox3 {
    pub min_x: u64,
    pub max_x: u64,
    pub min_y: u64,
    pub max_y: u64,
    pub min_z: u64,
    pub max_z: u64,
}

impl BBox3 {
    /// The box is the exact extent of the nodes of `nodes` with ids in `ids`.
    pub open spec fn is_extent_of(self, nodes: Map<u32, Node>, ids: Set<u32>) -> bool {
        &&& spans(self.min_x, self.max_x, axis_values(nodes, ids, 0))
        &&& spans(self.min_y, self.max_y, axis_values(nodes, ids, 1))
        &&& spans(self.min_z, self.max_z, axis_values(nodes, ids, 2))
    }

    /// The empty box: every minimum at positive infinity, every maximum at
    /// negative infinity.
    pub fn new() -> (r: BBox3)
        ensures
            r.min_x == POSITIVE_INFINITY_BITS,
            r.min_y == POSITIVE_INFINITY_BITS,
            r.min_z == POSITIVE_INFINITY_BITS,
            r.max_x == NEGATIVE_INFINITY_BITS,
            r.max_y == NEGATIVE_INFINITY_BITS,
            r.max_z == NEGATIVE_INFINITY_BITS,
    {
        BBox3 {
            min_x: POSITIVE_INFINITY_BITS,
            max_x: NEGATIVE_INFINITY_BITS,
            min_y: POSITIVE_INFINITY_BITS,
            max_y: NEGATIVE_INFINITY_BITS,
            min_z: POSITIVE_INFINITY_BITS,
            max_z: NEGATIVE_INFINITY_BITS,
        }
    }

    /// Widens the box to take in `node`.
    pub fn eat(&mut self, node: Node)
        ensures
            final(self).min_x == lower(old(self).min_x, node.x),
            final(self).max_x == upper(old(self).max_x, node.x),
            final(self).min_y == lower(old(self).min_y, node.y),
            final(self).max_y == upper(old(self).max_y, node.y),
            final(self).min_z == lower(old(self).min_z, node.z),
            final(self).max_z == upper(old(self).max_z, node.z),
    {
        if precedes(node.x, self.min_x) {
            self.min_x = node.x;
        }
        if precedes(self.max_x, node.x) {
            self.max_x = node.x;
        }
        if precedes(node.y, self.min_y) {
            self.min_y = node.y;
        }
        if precedes(self.max_y, node.y) {
            self.max_y = node.y;
        }
        if precedes(node.z, self.min_z) {
            self.min_z = node.z;
        }
        if precedes(self.max_z, node.z) {
            self.max_z = node.z;
        }
    }
}

} // verus!
