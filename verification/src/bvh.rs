//! Per-mesh bounding volume hierarchy: construction and flattening.
//!
//! Construction runs in two passes. The first pass builds a binary tree in
//! an arena of owned nodes, recursively partitioning the triangle set by
//! centroid along the axis of widest spread (falling back to a half split
//! when every centroid lands on one side) until each leaf holds exactly one
//! triangle. The second pass flattens the tree into a [`BvhNode`] array in
//! pre-order, so that a traverser can walk it without a call stack: on a hit
//! of an internal node it advances to `entry_index` (the node's own position
//! plus one), on a leaf it tests the one triangle, and on any miss or after
//! a leaf test it jumps to `exit_index`, the position right after the
//! node's subtree.
//!
//! Degenerate input is not an error: a mesh with no triangles yields a
//! single marker node carrying the sentinel in both `shape_index` and
//! `entry_index`.

use vstd::prelude::*;

use vstd::seq_lib::group_to_multiset_ensures;
use vstd::seq_lib::lemma_multiset_commutative;

use crate::aabb::{spec_empty_box, spec_triangle_box, spec_union, Aabb, Vec3Bits};
use crate::binary32::NO_INDEX;
use crate::data::{BvhNode, GpuMesh, MeshData};

verus! {

broadcast use group_to_multiset_ensures, vstd::multiset::group_multiset_axioms;

/// What one leaf holds: a triangle slot and the triangle's bound.
#[derive(Clone, Copy, PartialEq, Eq, Structural, Debug)]
pub struct LeafSlot {
    pub shape: u32,
    pub aabb: Aabb,
}

/// One triangle prepared for hierarchy construction: its object-space
/// bound, and the slot of the flattened node it ends up in.
pub struct BvhTriangle {
    pub aabb_min: Vec3Bits,
    pub aabb_max: Vec3Bits,
    pub node_index: usize,
}

impl BvhTriangle {
    /// The triangle's bound as one box.
    pub fn aabb(&self) -> (r: Aabb)
        ensures
            r == (Aabb { min: self.aabb_min, max: self.aabb_max }),
    {
        Aabb { min: self.aabb_min, max: self.aabb_max }
    }

    /// Records which flattened node holds this triangle.
    pub fn set_bh_node_index(&mut self, idx: usize)
        ensures
            final(self).node_index == idx,
            final(self).aabb_min == old(self).aabb_min,
            final(self).aabb_max == old(self).aabb_max,
    {
        self.node_index = idx;
    }

    /// The flattened node holding this triangle.
    pub fn bh_node_index(&self) -> (idx: usize)
        ensures
            idx == self.node_index,
    {
        self.node_index
    }
}

/// A flattened node holding a triangle slot.
pub open spec fn is_leaf_node(n: BvhNode) -> bool {
    n.shape_index != NO_INDEX
}

/// A flattened node with children.
pub open spec fn is_internal_node(n: BvhNode) -> bool {
    n.shape_index == NO_INDEX && n.entry_index != NO_INDEX
}

/// A flattened node's bound as one box.
pub open spec fn node_box(n: BvhNode) -> Aabb {
    Aabb { min: n.aabb_min, max: n.aabb_max }
}

/// The slot a flattened leaf holds.
pub open spec fn leaf_slot(n: BvhNode) -> LeafSlot {
    LeafSlot { shape: n.shape_index, aabb: node_box(n) }
}

/// The leaves of a flattened node sequence, in order.
pub open spec fn flat_leaves(s: Seq<BvhNode>) -> Seq<LeafSlot>
    decreases s.len(),
{
    if s.len() == 0 {
        Seq::empty()
    } else if is_leaf_node(s[0]) {
        seq![leaf_slot(s[0])] + flat_leaves(s.drop_first())
    } else {
        flat_leaves(s.drop_first())
    }
}

/// Leaves of a concatenation are the concatenated leaves.
pub proof fn lemma_flat_leaves_concat(a: Seq<BvhNode>, b: Seq<BvhNode>)
    ensures
        flat_leaves(a + b) == flat_leaves(a) + flat_leaves(b),
    decreases a.len(),
{
    if a.len() == 0 {
        assert(a + b =~= b);
        assert(flat_leaves(a) + flat_leaves(b) =~= flat_leaves(b));
    } else {
        assert((a + b).drop_first() =~= a.drop_first() + b);
        lemma_flat_leaves_concat(a.drop_first(), b);
        assert((a + b).len() != 0);
        assert((a + b)[0] == a[0]);
        assert(flat_leaves(a + b) =~= flat_leaves(a) + flat_leaves(b));
    }
}

/// Leaves of a one-node sequence.
pub proof fn lemma_flat_leaves_single(n: BvhNode)
    ensures
        flat_leaves(seq![n]) == if is_leaf_node(n) {
            seq![leaf_slot(n)]
        } else {
            Seq::<LeafSlot>::empty()
        },
{
    reveal_with_fuel(flat_leaves, 2);
    assert(seq![n].drop_first() =~= Seq::<BvhNode>::empty());
    if is_leaf_node(n) {
        assert(flat_leaves(seq![n]) =~= seq![leaf_slot(n)]);
    } else {
        assert(flat_leaves(seq![n]) =~= Seq::<LeafSlot>::empty());
    }
}

/// One arena node of the construction pass. Children are arena slots, both
/// strictly below the parent's own slot (the arena grows bottom-up), which
/// grounds every recursion over the tree.
enum BuildNode {
    Leaf { slot: LeafSlot },
    Internal { aabb: Aabb, left: usize, right: usize, count: u32 },
}

/// An arena node's bound.
spec fn bnode_box(n: BuildNode) -> Aabb {
    match n {
        BuildNode::Leaf { slot } => slot.aabb,
        BuildNode::Internal { aabb, .. } => aabb,
    }
}

/// Node count of the subtree rooted at `i`.
spec fn subtree_nodes(ns: Seq<BuildNode>, i: int) -> int
    decreases i,
{
    if 0 <= i < ns.len() {
        match ns[i] {
            BuildNode::Leaf { .. } => 1,
            BuildNode::Internal { left, right, .. } => {
                if left < i && right < i {
                    1 + subtree_nodes(ns, left as int) + subtree_nodes(ns, right as int)
                } else {
                    1
                }
            },
        }
    } else {
        1
    }
}

/// Leaf slots of the subtree rooted at `i`, left to right.
spec fn subtree_leaves(ns: Seq<BuildNode>, i: int) -> Seq<LeafSlot>
    decreases i,
{
    if 0 <= i < ns.len() {
        match ns[i] {
            BuildNode::Leaf { slot } => seq![slot],
            BuildNode::Internal { left, right, .. } => {
                if left < i && right < i {
                    subtree_leaves(ns, left as int) + subtree_leaves(ns, right as int)
                } else {
                    Seq::empty()
                }
            },
        }
    } else {
        Seq::empty()
    }
}

/// Well-formedness of the subtree rooted at `i`: children sit strictly
/// below their parent, every internal bound is the union of its children's
/// bounds, every stored count is the subtree's node count, and no leaf
/// carries the sentinel as its shape.
spec fn subtree_ok(ns: Seq<BuildNode>, i: int) -> bool
    decreases i,
{
    &&& 0 <= i < ns.len()
    &&& match ns[i] {
        BuildNode::Leaf { slot } => slot.shape != NO_INDEX,
        BuildNode::Internal { aabb, left, right, count } => {
            &&& left < i
            &&& right < i
            &&& subtree_ok(ns, left as int)
            &&& subtree_ok(ns, right as int)
            &&& aabb == spec_union(bnode_box(ns[left as int]), bnode_box(ns[right as int]))
            &&& count == subtree_nodes(ns, i)
        },
    }
}

/// Every subtree holds at least its root.
proof fn lemma_subtree_nodes_pos(ns: Seq<BuildNode>, i: int)
    ensures
        subtree_nodes(ns, i) >= 1,
    decreases i,
{
    if 0 <= i < ns.len() {
        match ns[i] {
            BuildNode::Leaf { .. } => {},
            BuildNode::Internal { left, right, .. } => {
                if left < i && right < i {
                    lemma_subtree_nodes_pos(ns, left as int);
                    lemma_subtree_nodes_pos(ns, right as int);
                }
            },
        }
    }
}

/// Everything a subtree says is stable under extending the arena: nodes
/// already placed never change.
proof fn lemma_subtree_prefix(ns1: Seq<BuildNode>, ns2: Seq<BuildNode>, i: int)
    requires
        0 <= i < ns1.len(),
        ns1.is_prefix_of(ns2),
    ensures
        subtree_nodes(ns2, i) == subtree_nodes(ns1, i),
        subtree_leaves(ns2, i) == subtree_leaves(ns1, i),
        subtree_ok(ns1, i) ==> subtree_ok(ns2, i),
    decreases i,
{
    assert(ns1[i] == ns2.subrange(0, ns1.len() as int)[i]);
    match ns1[i] {
        BuildNode::Leaf { .. } => {},
        BuildNode::Internal { left, right, .. } => {
            if left < i && right < i {
                lemma_subtree_prefix(ns1, ns2, left as int);
                lemma_subtree_prefix(ns1, ns2, right as int);
            }
        },
    }
}

/// An arena node's bound, read back.
fn arena_box(arena: &Vec<BuildNode>, i: usize) -> (b: Aabb)
    requires
        i < arena@.len(),
    ensures
        b == bnode_box(arena@[i as int]),
{
    match &arena[i] {
        BuildNode::Leaf { slot } => slot.aabb,
        BuildNode::Internal { aabb, .. } => *aabb,
    }
}

/// A well-formed subtree's node count, read back.
fn arena_count(arena: &Vec<BuildNode>, i: usize) -> (c: u32)
    requires
        i < arena@.len(),
        subtree_ok(arena@, i as int),
    ensures
        c == subtree_nodes(arena@, i as int),
{
    match &arena[i] {
        BuildNode::Leaf { .. } => 1,
        BuildNode::Internal { count, .. } => *count,
    }
}

/// Component of a point along one axis (0, 1, or anything else meaning 2).
fn axis_component(v: Vec3Bits, axis: u8) -> u32 {
    if axis == 0 {
        v.x
    } else if axis == 1 {
        v.y
    } else {
        v.z
    }
}

/// Centroid proxy of a box along one axis: the midpoint of the corner
/// order keys. Only the split heuristic reads it; no contract is needed
/// beyond absence of overflow.
fn centroid_key(b: &Aabb, axis: u8) -> u32 {
    let lo = crate::binary32::key_of(axis_component(b.min, axis));
    let hi = crate::binary32::key_of(axis_component(b.max, axis));
    (((lo as u64) + (hi as u64)) / 2) as u32
}

/// Every slot names a real triangle: no shape is the sentinel.
pub open spec fn slots_shaped(s: Seq<LeafSlot>) -> bool {
    forall|j: int| 0 <= j < s.len() ==> s[j].shape != NO_INDEX
}

/// Splitting a collection two ways keeps every element's properties: here,
/// that no shape is the sentinel.
proof fn lemma_split_keeps_shapes(l: Seq<LeafSlot>, r: Seq<LeafSlot>, s: Seq<LeafSlot>)
    requires
        l.to_multiset().add(r.to_multiset()) == s.to_multiset(),
        slots_shaped(s),
    ensures
        slots_shaped(l),
        slots_shaped(r),
{
    assert forall|j: int| 0 <= j < l.len() implies l[j].shape != NO_INDEX by {
        assert(l.contains(l[j]));
        assert(l.to_multiset().count(l[j]) > 0);
        assert(s.to_multiset().count(l[j]) > 0);
        assert(s.contains(l[j]));
        let k = choose|k: int| 0 <= k < s.len() && s[k] == l[j];
        assert(s[k].shape != NO_INDEX);
    }
    assert forall|j: int| 0 <= j < r.len() implies r[j].shape != NO_INDEX by {
        assert(r.contains(r[j]));
        assert(r.to_multiset().count(r[j]) > 0);
        assert(s.to_multiset().count(r[j]) > 0);
        assert(s.contains(r[j]));
        let k = choose|k: int| 0 <= k < s.len() && s[k] == r[j];
        assert(s[k].shape != NO_INDEX);
    }
}

/// Partitions at least two slots into two nonempty parts that together
/// hold exactly the input slots. The split is by centroid against the
/// midpoint of the centroid range along the axis of widest spread, with a
/// half split as fallback when one side comes out empty.
fn partition_slots(items: Vec<LeafSlot>) -> (parts: (Vec<LeafSlot>, Vec<LeafSlot>))
    requires
        items@.len() >= 2,
    ensures
        parts.0@.len() >= 1,
        parts.1@.len() >= 1,
        parts.0@.len() + parts.1@.len() == items@.len(),
        parts.0@.to_multiset().add(parts.1@.to_multiset()) == items@.to_multiset(),
{
    let n = items.len();

    // Centroid range per axis.
    let mut cmin_x = centroid_key(&items[0].aabb, 0);
    let mut cmax_x = cmin_x;
    let mut cmin_y = centroid_key(&items[0].aabb, 1);
    let mut cmax_y = cmin_y;
    let mut cmin_z = centroid_key(&items[0].aabb, 2);
    let mut cmax_z = cmin_z;
    let mut i: usize = 1;
    while i < n
        invariant
            n == items@.len(),
            cmin_x <= cmax_x,
            cmin_y <= cmax_y,
            cmin_z <= cmax_z,
        decreases n - i,
    {
        let cx = centroid_key(&items[i].aabb, 0);
        let cy = centroid_key(&items[i].aabb, 1);
        let cz = centroid_key(&items[i].aabb, 2);
        if cx < cmin_x {
            cmin_x = cx;
        }
        if cx > cmax_x {
            cmax_x = cx;
        }
        if cy < cmin_y {
            cmin_y = cy;
        }
        if cy > cmax_y {
            cmax_y = cy;
        }
        if cz < cmin_z {
            cmin_z = cz;
        }
        if cz > cmax_z {
            cmax_z = cz;
        }
        i = i + 1;
    }

    let spread_x = cmax_x - cmin_x;
    let spread_y = cmax_y - cmin_y;
    let spread_z = cmax_z - cmin_z;
    let (axis, lo, spread): (u8, u32, u32) = if spread_x >= spread_y && spread_x >= spread_z {
        (0, cmin_x, spread_x)
    } else if spread_y >= spread_z {
        (1, cmin_y, spread_y)
    } else {
        (2, cmin_z, spread_z)
    };
    let threshold = lo + spread / 2;

    let mut l: Vec<LeafSlot> = Vec::new();
    let mut r: Vec<LeafSlot> = Vec::new();
    let mut i: usize = 0;
    while i < n
        invariant
            n == items@.len(),
            i <= n,
            l@.len() + r@.len() == i,
            l@.to_multiset().add(r@.to_multiset()) == items@.take(i as int).to_multiset(),
        decreases n - i,
    {
        let it = items[i];
        let ghost lprev = l@;
        let ghost rprev = r@;
        proof {
            assert(items@.take(i + 1 as int) =~= items@.take(i as int).push(it));
            assert(items@.take(i + 1 as int).to_multiset() == items@.take(
                i as int,
            ).to_multiset().insert(it));
        }
        if centroid_key(&it.aabb, axis) <= threshold {
            l.push(it);
            proof {
                assert(l@ == lprev.push(it));
                assert(l@.to_multiset() == lprev.to_multiset().insert(it));
                assert(l@.to_multiset().add(r@.to_multiset()) =~= items@.take(
                    i + 1 as int,
                ).to_multiset());
            }
        } else {
            r.push(it);
            proof {
                assert(r@ == rprev.push(it));
                assert(r@.to_multiset() == rprev.to_multiset().insert(it));
                assert(l@.to_multiset().add(r@.to_multiset()) =~= items@.take(
                    i + 1 as int,
                ).to_multiset());
            }
        }
        i = i + 1;
    }
    proof {
        assert(items@.take(n as int) =~= items@);
    }

    if l.len() >= 1 && r.len() >= 1 {
        return (l, r);
    }

    // Fallback: all centroids landed on one side; split at the middle.
    let mid = n / 2;
    let mut l2: Vec<LeafSlot> = Vec::new();
    let mut r2: Vec<LeafSlot> = Vec::new();
    let mut i: usize = 0;
    while i < n
        invariant
            n == items@.len(),
            n >= 2,
            mid == n / 2,
            i <= n,
            i <= mid ==> l2@ == items@.take(i as int) && r2@.len() == 0,
            i > mid ==> l2@ == items@.take(mid as int) && r2@ == items@.subrange(
                mid as int,
                i as int,
            ),
        decreases n - i,
    {
        let it = items[i];
        if i < mid {
            l2.push(it);
            proof {
                assert(l2@ =~= items@.take(i + 1 as int));
            }
        } else {
            r2.push(it);
            proof {
                assert(l2@ =~= items@.take(mid as int));
                assert(r2@ =~= items@.subrange(mid as int, i + 1 as int));
            }
        }
        i = i + 1;
    }
    proof {
        assert(l2@ + r2@ =~= items@);
        lemma_multiset_commutative(l2@, r2@);
    }
    (l2, r2)
}

/// Builds the subtree of a nonempty slot collection into the arena,
/// returning the root's arena slot (always the newest node). The subtree
/// is well formed, covers exactly the given slots at its leaves, and has
/// one node fewer than twice the slot count.
fn build_rec(items: Vec<LeafSlot>, arena: &mut Vec<BuildNode>) -> (root: usize)
    requires
        items@.len() >= 1,
        slots_shaped(items@),
        old(arena)@.len() + 2 * items@.len() <= 0x4000_0000,
    ensures
        old(arena)@.is_prefix_of(final(arena)@),
        final(arena)@.len() == old(arena)@.len() + 2 * items@.len() - 1,
        root == final(arena)@.len() - 1,
        subtree_ok(final(arena)@, root as int),
        subtree_nodes(final(arena)@, root as int) == 2 * items@.len() - 1,
        subtree_leaves(final(arena)@, root as int).to_multiset() == items@.to_multiset(),
    decreases items@.len(),
{
    if items.len() == 1 {
        let it = items[0];
        arena.push(BuildNode::Leaf { slot: it });
        let root = arena.len() - 1;
        proof {
            assert(old(arena)@.is_prefix_of(arena@)) by {
                assert(arena@.subrange(0, old(arena)@.len() as int) =~= old(arena)@);
            }
            assert(arena@[root as int] == (BuildNode::Leaf { slot: it }));
            assert(subtree_leaves(arena@, root as int) =~= seq![it]);
            assert(items@ =~= seq![it]);
            assert(seq![it].to_multiset() =~= Seq::<LeafSlot>::empty().to_multiset().insert(it))
                by {
                assert(seq![it] =~= Seq::<LeafSlot>::empty().push(it));
            }
        }
        root
    } else {
        let ghost items_view = items@;
        let (l, r) = partition_slots(items);
        proof {
            lemma_split_keeps_shapes(l@, r@, items_view);
        }
        let ghost arena0 = arena@;
        let left_root = build_rec(l, arena);
        let ghost arena1 = arena@;
        let ghost lms = subtree_leaves(arena1, left_root as int).to_multiset();
        let right_root = build_rec(r, arena);
        let ghost arena2 = arena@;
        proof {
            lemma_subtree_prefix(arena1, arena2, left_root as int);
        }
        let la = arena_box(arena, left_root);
        let ra = arena_box(arena, right_root);
        let lc = arena_count(arena, left_root);
        let rc = arena_count(arena, right_root);
        let aabb = la.union(&ra);
        let count = 1 + lc + rc;
        arena.push(
            BuildNode::Internal { aabb, left: left_root, right: right_root, count },
        );
        let root = arena.len() - 1;
        proof {
            let fin = arena@;
            assert(fin[root as int] == (BuildNode::Internal {
                aabb,
                left: left_root,
                right: right_root,
                count,
            }));
            assert(arena2.is_prefix_of(fin)) by {
                assert(fin.subrange(0, arena2.len() as int) =~= arena2);
            }
            assert(arena1.is_prefix_of(fin)) by {
                assert(fin.subrange(0, arena1.len() as int) =~= arena1);
            }
            assert(arena0.is_prefix_of(fin)) by {
                assert(fin.subrange(0, arena0.len() as int) =~= arena0);
            }
            lemma_subtree_prefix(arena2, fin, left_root as int);
            lemma_subtree_prefix(arena2, fin, right_root as int);
            lemma_subtree_prefix(arena1, arena2, left_root as int);
            assert(subtree_ok(fin, root as int));
            assert(subtree_leaves(fin, root as int) == subtree_leaves(fin, left_root as int)
                + subtree_leaves(fin, right_root as int));
            lemma_multiset_commutative(
                subtree_leaves(fin, left_root as int),
                subtree_leaves(fin, right_root as int),
            );
        }
        root
    }
}

/// Flattens the well-formed subtree rooted at arena slot `i` onto the end
/// of `out`, in pre-order. Every emitted node's `exit_index` lands strictly
/// past the node and no further than the end of the emission; the first
/// emitted node's `exit_index` is exactly the end of the emission; leaves
/// carry the sentinel entry; every internal node's entry is its own
/// position plus one, and its bound is the union of its two children's
/// bounds, the children being the node at `entry_index` and the node that
/// child's `exit_index` names.
fn flatten_rec(arena: &Vec<BuildNode>, i: usize, out: &mut Vec<BvhNode>)
    requires
        subtree_ok(arena@, i as int),
        old(out)@.len() + subtree_nodes(arena@, i as int) <= 0x4000_0000,
    ensures
        old(out)@.is_prefix_of(final(out)@),
        final(out)@.len() == old(out)@.len() + subtree_nodes(arena@, i as int),
        flat_leaves(final(out)@.subrange(old(out)@.len() as int, final(out)@.len() as int))
            == subtree_leaves(arena@, i as int),
        final(out)@[old(out)@.len() as int].exit_index == final(out)@.len(),
        node_box(final(out)@[old(out)@.len() as int]) == bnode_box(arena@[i as int]),
        forall|p: int|
            old(out)@.len() <= p < final(out)@.len() ==> flat_node_ok(final(out)@, p),
    decreases i,
{
    let my = out.len();
    match &arena[i] {
        BuildNode::Leaf { slot } => {
            let slot = *slot;
            out.push(
                BvhNode {
                    aabb_min: slot.aabb.min,
                    aabb_max: slot.aabb.max,
                    entry_index: NO_INDEX,
                    exit_index: (my + 1) as u32,
                    shape_index: slot.shape,
                },
            );
            proof {
                let fin = out@;
                assert(old(out)@.is_prefix_of(fin)) by {
                    assert(fin.subrange(0, old(out)@.len() as int) =~= old(out)@);
                }
                let added = fin.subrange(my as int, fin.len() as int);
                assert(added.len() == 1);
                assert(arena@[i as int] == (BuildNode::Leaf { slot }));
                assert(slot.shape != NO_INDEX);
                assert(is_leaf_node(added[0]));
                assert(added =~= seq![added[0]]);
                lemma_flat_leaves_single(added[0]);
                assert(flat_leaves(added) =~= seq![leaf_slot(added[0])]);
                assert(subtree_leaves(arena@, i as int) =~= seq![slot]);
                assert(leaf_slot(added[0]) == slot);
                assert(flat_leaves(added) == subtree_leaves(arena@, i as int));
            }
        },
        BuildNode::Internal { aabb, left, right, count } => {
            let aabb = *aabb;
            let left = *left;
            let right = *right;
            let count = *count;
            proof {
                assert(arena@[i as int] == (BuildNode::Internal {
                    aabb,
                    left,
                    right,
                    count,
                }));
                assert(count == subtree_nodes(arena@, i as int));
                lemma_subtree_nodes_pos(arena@, left as int);
                lemma_subtree_nodes_pos(arena@, right as int);
            }
            out.push(
                BvhNode {
                    aabb_min: aabb.min,
                    aabb_max: aabb.max,
                    entry_index: (my + 1) as u32,
                    exit_index: (my + count as usize) as u32,
                    shape_index: NO_INDEX,
                },
            );
            let ghost out0 = out@;
            flatten_rec(arena, left, out);
            let ghost out1 = out@;
            flatten_rec(arena, right, out);
            let ghost fin = out@;
            proof {
                let sl = subtree_nodes(arena@, left as int);
                let sr = subtree_nodes(arena@, right as int);
                let rp = my + 1 + sl;  // right child position
                assert(out0.is_prefix_of(out1));
                assert(out1.is_prefix_of(fin));
                assert(out0.is_prefix_of(fin));
                assert(old(out)@.is_prefix_of(fin)) by {
                    assert(fin.subrange(0, old(out)@.len() as int) =~= old(out)@);
                }
                assert(fin.len() == my + 1 + sl + sr);
                // Elements of earlier stages persist.
                assert forall|p: int| 0 <= p < out1.len() implies fin[p] == out1[p] by {
                    assert(out1 =~= fin.subrange(0, out1.len() as int));
                }
                // The root node of the left emission is the right child's
                // locator: its exit is the right child's position.
                assert(fin[my + 1].exit_index == rp);
                assert(node_box(fin[my + 1]) == bnode_box(arena@[left as int]));
                assert(node_box(fin[rp]) == bnode_box(arena@[right as int]));
                assert(node_box(fin[my as int]) == spec_union(
                    node_box(fin[my + 1]),
                    node_box(fin[rp]),
                ));
                // Leaves: the emission is the root node, then the left
                // emission, then the right emission.
                let added = fin.subrange(my as int, fin.len() as int);
                let root_part = fin.subrange(my as int, my + 1 as int);
                let left_part = fin.subrange(my + 1 as int, rp as int);
                let right_part = fin.subrange(rp as int, fin.len() as int);
                assert(left_part =~= out1.subrange(my + 1 as int, out1.len() as int));
                assert(added =~= root_part + left_part + right_part);
                lemma_flat_leaves_concat(root_part + left_part, right_part);
                lemma_flat_leaves_concat(root_part, left_part);
                assert(!is_leaf_node(root_part[0]));
                assert(root_part =~= seq![root_part[0]]);
                lemma_flat_leaves_single(root_part[0]);
                assert(flat_leaves(root_part) =~= Seq::<LeafSlot>::empty());
                assert(flat_leaves(added) =~= flat_leaves(left_part) + flat_leaves(right_part));
                assert(flat_leaves(added) == subtree_leaves(arena@, i as int));
                // Per-node soundness carries over from both emissions.
                assert forall|p: int| my <= p < fin.len() implies flat_node_ok(fin, p) by {
                    if p == my {
                        assert(is_internal_node(fin[p]));
                    } else if p < out1.len() {
                        assert(flat_node_ok(out1, p));
                        lemma_flat_node_ok_prefix(out1, fin, p);
                    } else {
                        assert(flat_node_ok(fin, p));
                    }
                }
            }
        },
    }
}

/// Soundness of one flattened node for a stackless traverser: progress
/// (the miss jump lands strictly past the node, no further than the array
/// end), a definite kind, the sentinel entry on leaves, and on internal
/// nodes the first child right after the node, with the node's bound the
/// union of the two children's bounds — the second child being the node
/// the first child's `exit_index` names.
pub open spec fn flat_node_ok(ns: Seq<BvhNode>, p: int) -> bool {
    &&& p < ns[p].exit_index <= ns.len()
    &&& (is_leaf_node(ns[p]) || is_internal_node(ns[p]))
    &&& (is_leaf_node(ns[p]) ==> ns[p].entry_index == NO_INDEX)
    &&& (is_internal_node(ns[p]) ==> {
        &&& ns[p].entry_index == p + 1
        &&& p + 1 < ns.len()
        &&& p + 1 < ns[p + 1].exit_index < ns.len()
        &&& node_box(ns[p]) == spec_union(
            node_box(ns[p + 1]),
            node_box(ns[ns[p + 1].exit_index as int]),
        )
    })
}

/// A sound node stays sound when the array grows past it.
proof fn lemma_flat_node_ok_prefix(ns1: Seq<BvhNode>, ns2: Seq<BvhNode>, p: int)
    requires
        0 <= p < ns1.len(),
        ns1.is_prefix_of(ns2),
        flat_node_ok(ns1, p),
    ensures
        flat_node_ok(ns2, p),
{
    assert forall|q: int| 0 <= q < ns1.len() implies ns2[q] == ns1[q] by {
        assert(ns1 =~= ns2.subrange(0, ns1.len() as int));
    }
}

/// Corner `c` (0, 1 or 2) of triangle `t` of a mesh's region within the
/// shared pools.
pub open spec fn tri_vertex(md: MeshData, mesh: GpuMesh, t: int, c: int) -> crate::data::GpuVertex {
    md.vertices@[mesh.vhead + md.indices@[mesh.ihead + 3 * t + c]]
}

/// Object-space bound of triangle `t` of a mesh.
pub open spec fn spec_tri_box(md: MeshData, mesh: GpuMesh, t: int) -> Aabb {
    spec_triangle_box(
        tri_vertex(md, mesh, t, 0).position,
        tri_vertex(md, mesh, t, 1).position,
        tri_vertex(md, mesh, t, 2).position,
    )
}

/// The mesh's region lies within the pools: its index range exists, and
/// every index in it names a vertex of the pool.
pub open spec fn mesh_tris_valid(md: MeshData, mesh: GpuMesh) -> bool {
    &&& mesh.ihead + 3 * mesh.tri_count <= md.indices@.len()
    &&& forall|j: int|
        mesh.ihead <= j < mesh.ihead + 3 * mesh.tri_count ==> mesh.vhead + #[trigger] md.indices@[j]
            < md.vertices@.len()
}

/// The slots a mesh's hierarchy must cover: triangle `t` under shape `t`,
/// bounded by its own box.
pub open spec fn mesh_slots(md: MeshData, mesh: GpuMesh) -> Seq<LeafSlot> {
    Seq::new(
        mesh.tri_count as nat,
        |t: int| LeafSlot { shape: t as u32, aabb: spec_tri_box(md, mesh, t) },
    )
}

/// Permutation law: when the leaves of a flattened hierarchy cover, as a
/// multiset, a slot sequence whose shape at position `i` is `i`, then there
/// are exactly as many leaves as slots, every leaf is the slot its shape
/// names, no two leaves share a shape, and every shape occurs — the leaf
/// shapes are a permutation of the slot positions.
pub proof fn lemma_leaf_shape_permutation(lv: Seq<LeafSlot>, slots: Seq<LeafSlot>)
    requires
        lv.to_multiset() == slots.to_multiset(),
        forall|i: int| 0 <= i < slots.len() ==> #[trigger] slots[i].shape == i,
    ensures
        lv.len() == slots.len(),
        forall|a: int|
            0 <= a < lv.len() ==> 0 <= #[trigger] lv[a].shape < slots.len() && lv[a]
                == slots[lv[a].shape as int],
        forall|a: int, b: int| 0 <= a < b < lv.len() ==> lv[a].shape != lv[b].shape,
        forall|t: int| 0 <= t < slots.len() ==> lv.contains(#[trigger] slots[t]),
{
    assert(lv.len() == lv.to_multiset().len());
    assert(slots.len() == slots.to_multiset().len());
    assert forall|a: int|
        0 <= a < lv.len() implies 0 <= #[trigger] lv[a].shape < slots.len() && lv[a]
        == slots[lv[a].shape as int] by {
        assert(lv.contains(lv[a]));
        assert(lv.to_multiset().count(lv[a]) > 0);
        assert(slots.to_multiset().count(lv[a]) > 0);
        assert(slots.contains(lv[a]));
        let k = choose|k: int| 0 <= k < slots.len() && slots[k] == lv[a];
        assert(slots[k].shape == k);
    }
    assert(slots.no_duplicates()) by {
        assert forall|i: int, j: int|
            0 <= i < slots.len() && 0 <= j < slots.len() && i != j implies slots[i]
            != slots[j] by {
            assert(slots[i].shape == i);
            assert(slots[j].shape == j);
        }
    }
    slots.lemma_multiset_has_no_duplicates();
    assert forall|x: LeafSlot|
        lv.to_multiset().contains(x) implies lv.to_multiset().count(x) == 1 by {
        assert(slots.to_multiset().contains(x));
    }
    lv.lemma_multiset_has_no_duplicates_conv();
    assert forall|a: int, b: int| 0 <= a < b < lv.len() implies lv[a].shape != lv[b].shape by {
        if lv[a].shape == lv[b].shape {
            assert(lv[a] == slots[lv[a].shape as int]);
            assert(lv[b] == slots[lv[b].shape as int]);
            assert(lv[a] == lv[b]);
        }
    }
    assert forall|t: int| 0 <= t < slots.len() implies lv.contains(#[trigger] slots[t]) by {
        assert(slots.contains(slots[t]));
        assert(slots.to_multiset().count(slots[t]) > 0);
        assert(lv.to_multiset().count(slots[t]) > 0);
    }
}

/// Checks that a mesh's region lies within the pools and that every index
/// in it names a pooled vertex: the precondition of [`generate`], decided
/// at run time.
pub fn check_mesh_tris(mesh: &GpuMesh, mesh_data: &MeshData) -> (ok: bool)
    ensures
        ok == mesh_tris_valid(*mesh_data, *mesh),
{
    let ilen = mesh_data.indices.len();
    let vlen = mesh_data.vertices.len();
    if mesh.tri_count as u64 * 3 + mesh.ihead as u64 > ilen as u64 {
        return false;
    }
    let count = 3 * (mesh.tri_count as usize);
    let head = mesh.ihead as usize;
    let mut j: usize = 0;
    while j < count
        invariant
            ilen == mesh_data.indices@.len(),
            head + count <= ilen,
            head == mesh.ihead,
            count == 3 * mesh.tri_count,
            vlen == mesh_data.vertices@.len(),
            j <= count,
            forall|k: int|
                head <= k < head + j ==> mesh.vhead + #[trigger] mesh_data.indices@[k]
                    < mesh_data.vertices@.len(),
        decreases count - j,
    {
        if mesh.vhead as u64 + mesh_data.indices[head + j] as u64 >= vlen as u64 {
            return false;
        }
        j = j + 1;
    }
    true
}

/// Builds and flattens one mesh's hierarchy onto the end of `mesh_nodes`,
/// returning the number of nodes appended.
///
/// The appended nodes form one self-contained pre-order block: the block's
/// first node exits past the block's end, every node satisfies
/// [`flat_node_ok`] — in particular every internal node's bound is the
/// union of its two children's bounds — and the block's leaves cover the
/// mesh's triangles exactly: there are `tri_count` of them, their shapes
/// are a permutation of the triangle slots, and each leaf's bound is its
/// own triangle's box. A mesh with no triangles yields one marker node
/// carrying the sentinel as both shape and entry, with an empty bound.
pub fn generate(mesh: &GpuMesh, mesh_data: &MeshData, mesh_nodes: &mut Vec<BvhNode>) -> (total:
    u32)
    requires
        mesh_tris_valid(*mesh_data, *mesh),
        mesh.tri_count <= 0x0800_0000,
        old(mesh_nodes)@.len() + 2 * mesh.tri_count + 1 <= 0x4000_0000,
    ensures
        old(mesh_nodes)@.is_prefix_of(final(mesh_nodes)@),
        final(mesh_nodes)@.len() == old(mesh_nodes)@.len() + total,
        total == if mesh.tri_count == 0 {
            1int
        } else {
            2 * mesh.tri_count - 1
        },
        final(mesh_nodes)@[old(mesh_nodes)@.len() as int].exit_index == final(mesh_nodes)@.len(),
        mesh.tri_count == 0 ==> final(mesh_nodes)@[old(mesh_nodes)@.len() as int] == (BvhNode {
            aabb_min: spec_empty_box().min,
            aabb_max: spec_empty_box().max,
            entry_index: NO_INDEX,
            exit_index: (old(mesh_nodes)@.len() + 1) as u32,
            shape_index: NO_INDEX,
        }),
        mesh.tri_count > 0 ==> forall|p: int|
            old(mesh_nodes)@.len() <= p < final(mesh_nodes)@.len() ==> flat_node_ok(
                final(mesh_nodes)@,
                p,
            ),
        ({
            let added = final(mesh_nodes)@.subrange(
                old(mesh_nodes)@.len() as int,
                final(mesh_nodes)@.len() as int,
            );
            let lv = flat_leaves(added);
            let n = mesh.tri_count as int;
            &&& lv.to_multiset() == mesh_slots(*mesh_data, *mesh).to_multiset()
            &&& lv.len() == n
            &&& forall|a: int|
                0 <= a < n ==> 0 <= #[trigger] lv[a].shape < n && lv[a] == (LeafSlot {
                    shape: lv[a].shape,
                    aabb: spec_tri_box(*mesh_data, *mesh, lv[a].shape as int),
                })
            &&& forall|a: int, b: int| 0 <= a < b < n ==> lv[a].shape != lv[b].shape
            &&& forall|t: int|
                0 <= t < n ==> lv.contains(#[trigger] mesh_slots(*mesh_data, *mesh)[t])
        }),
{
    let tc = mesh.tri_count as usize;
    let base = mesh_nodes.len();
    if tc == 0 {
        let eb = Aabb::empty();
        mesh_nodes.push(
            BvhNode {
                aabb_min: eb.min,
                aabb_max: eb.max,
                entry_index: NO_INDEX,
                exit_index: (base + 1) as u32,
                shape_index: NO_INDEX,
            },
        );
        proof {
            let fin = mesh_nodes@;
            assert(old(mesh_nodes)@.is_prefix_of(fin)) by {
                assert(fin.subrange(0, base as int) =~= old(mesh_nodes)@);
            }
            let added = fin.subrange(base as int, fin.len() as int);
            assert(added =~= seq![added[0]]);
            lemma_flat_leaves_single(added[0]);
            assert(flat_leaves(added) =~= Seq::<LeafSlot>::empty());
            assert(mesh_slots(*mesh_data, *mesh) =~= Seq::<LeafSlot>::empty());
            assert(flat_leaves(added).to_multiset() =~= mesh_slots(
                *mesh_data,
                *mesh,
            ).to_multiset());
        }
        return 1;
    }

    let ghost goal = mesh_slots(*mesh_data, *mesh);
    let mut slots: Vec<LeafSlot> = Vec::new();
    let mut t: usize = 0;
    while t < tc
        invariant
            tc == mesh.tri_count,
            tc <= 0x0800_0000,
            mesh_tris_valid(*mesh_data, *mesh),
            goal == mesh_slots(*mesh_data, *mesh),
            t <= tc,
            slots@ == goal.take(t as int),
        decreases tc - t,
    {
        let ilen = mesh_data.indices.len();
        let vlen = mesh_data.vertices.len();
        proof {
            assert(mesh.ihead + 3 * t + 3 <= ilen);
            assert(mesh.vhead + mesh_data.indices@[mesh.ihead + 3 * t] < vlen);
            assert(mesh.vhead + mesh_data.indices@[mesh.ihead + 3 * t + 1] < vlen);
            assert(mesh.vhead + mesh_data.indices@[mesh.ihead + 3 * t + 2] < vlen);
        }
        let i = mesh.ihead as usize + 3 * t;
        let ai = mesh_data.indices[i] as usize;
        let bi = mesh_data.indices[i + 1] as usize;
        let ci = mesh_data.indices[i + 2] as usize;
        let av = mesh_data.vertices[mesh.vhead as usize + ai];
        let bv = mesh_data.vertices[mesh.vhead as usize + bi];
        let cv = mesh_data.vertices[mesh.vhead as usize + ci];
        let tri_bound = crate::aabb::triangle_box(av.position, bv.position, cv.position);
        slots.push(LeafSlot { shape: t as u32, aabb: tri_bound });
        proof {
            assert(tri_bound == spec_tri_box(*mesh_data, *mesh, t as int));
            assert(slots@ =~= goal.take(t + 1 as int));
        }
        t = t + 1;
    }
    proof {
        assert(slots@ =~= goal);
        assert forall|j: int| 0 <= j < slots@.len() implies slots@[j].shape != NO_INDEX by {
            assert(slots@[j].shape == j);
        }
    }

    let mut arena: Vec<BuildNode> = Vec::new();
    let root = build_rec(slots, &mut arena);
    flatten_rec(&arena, root, mesh_nodes);
    proof {
        let fin = mesh_nodes@;
        let added = fin.subrange(base as int, fin.len() as int);
        assert(flat_leaves(added).to_multiset() == goal.to_multiset());
        assert forall|i: int| 0 <= i < goal.len() implies #[trigger] goal[i].shape == i by {}
        lemma_leaf_shape_permutation(flat_leaves(added), goal);
        assert forall|a: int|
            0 <= a < mesh.tri_count implies 0 <= #[trigger] flat_leaves(added)[a].shape
            < mesh.tri_count && flat_leaves(added)[a] == (LeafSlot {
            shape: flat_leaves(added)[a].shape,
            aabb: spec_tri_box(*mesh_data, *mesh, flat_leaves(added)[a].shape as int),
        }) by {
            let sh = flat_leaves(added)[a].shape as int;
            assert(flat_leaves(added)[a] == goal[sh]);
        }
    }
    let total = (2 * tc - 1) as u32;
    total
}

} // verus!
