//! The scene graph: a flat arena of nodes cross-referenced by index, the
//! derived parent map and a parents-first traversal order, world-transform
//! propagation and joint-palette resolution.

use crate::math::{mat_identity, mat_identity_ex, mat_mul, mat_mul_s, trs_mat, trs_mat_s, Mat4,
    Quat, Vec3};
use vstd::prelude::*;
use vstd::seq_lib::*;
use vstd::set_lib::{lemma_int_range, lemma_len_subset, set_int_range};

verus! {

/// What a node carries: a mesh of the owning object, or nothing visual.
#[derive(Clone, Copy, Debug, PartialEq, Eq, Structural)]
pub enum NodeType {
    Mesh { mesh: usize },
    Generic,
}

/// One node of the scene graph. The local transform is kept decomposed, so a
/// keyframe track can replace one component without touching the others; the
/// composed world transform is recomputed by propagation every frame.
#[derive(Debug)]
pub struct Node {
    /// Human-readable name, diagnostic only.
    pub name: String,
    pub node_type: NodeType,
    pub translation: Vec3,
    pub rotation: Quat,
    pub scale: Vec3,
    pub world_transform: Mat4,
    /// Indices of the child nodes, in document order.
    pub children: Vec<usize>,
}

/// The local transform of a node, composed into a matrix.
pub open spec fn local_mat_of(n: Node) -> Mat4 {
    trs_mat_s(n.translation, n.rotation, n.scale)
}

/// The same node with only its world transform replaced.
pub open spec fn with_world(n: Node, w: Mat4) -> Node {
    Node { world_transform: w, ..n }
}

/// Every child index points into the node table.
pub open spec fn children_valid(nodes: Seq<Node>) -> bool {
    forall|i: int, k: int|
        0 <= i < nodes.len() && 0 <= k < nodes[i].children@.len() ==> (
        #[trigger] nodes[i].children@[k] as int) < nodes.len()
}

/// `parent` inverts the child lists: a node's parent is the one node whose
/// child list holds it, and a parentless node maps to `None`.
pub open spec fn parent_consistent(nodes: Seq<Node>, parent: Seq<Option<usize>>) -> bool {
    &&& parent.len() == nodes.len()
    &&& forall|p: int, k: int|
        0 <= p < nodes.len() && 0 <= k < nodes[p].children@.len() ==> parent[(
        #[trigger] nodes[p].children@[k]) as int] == Some(p as usize)
    &&& forall|c: int|
        0 <= c < nodes.len() && #[trigger] parent[c] is Some ==> ((parent[c]->0) as int)
            < nodes.len() && nodes[(parent[c]->0) as int].children@.contains(c as usize)
}

/// `order` visits every node once, each node after its parent.
pub open spec fn order_ok(n: int, parent: Seq<Option<usize>>, order: Seq<usize>) -> bool {
    &&& order.len() == n
    &&& order.no_duplicates()
    &&& forall|j: int| 0 <= j < order.len() ==> (#[trigger] order[j] as int) < n
    &&& forall|j: int|
        0 <= j < order.len() && parent[#[trigger] order[j] as int] is Some ==> exists|j2: int|
            0 <= j2 < j && #[trigger] order[j2] == parent[order[j] as int]->0
}

/// The world transform a node inherits: the identity for a parentless node,
/// the parent's world transform otherwise.
pub open spec fn parent_world(nodes: Seq<Node>, parent: Seq<Option<usize>>, i: int) -> Mat4 {
    if parent[i] is Some {
        nodes[(parent[i]->0) as int].world_transform
    } else {
        mat_identity()
    }
}

/// The propagation equation at node `i`: its world transform is the inherited
/// world transform times its local transform.
pub open spec fn world_fixpoint_at(nodes: Seq<Node>, parent: Seq<Option<usize>>, i: int) -> bool {
    nodes[i].world_transform == mat_mul_s(parent_world(nodes, parent, i), local_mat_of(nodes[i]))
}

/// A parentless node's world transform is exactly its composed local
/// transform: the inherited identity is neutral even in saturating
/// fixed-point arithmetic.
pub proof fn lemma_root_world_is_local(nodes: Seq<Node>, parent: Seq<Option<usize>>, i: int)
    requires
        0 <= i < nodes.len(),
        world_fixpoint_at(nodes, parent, i),
        parent[i] is None,
    ensures
        nodes[i].world_transform == local_mat_of(nodes[i]),
{
    crate::math::lemma_mat_mul_identity_left(local_mat_of(nodes[i]));
}

/// A traversal order over the whole table reaches every node.
pub proof fn lemma_order_covers(order: Seq<usize>, n: int, i: int)
    requires
        order.len() == n,
        order.no_duplicates(),
        forall|j: int| 0 <= j < order.len() ==> (#[trigger] order[j] as int) < n,
        0 <= i < n,
    ensures
        exists|j: int| 0 <= j < n && #[trigger] order[j] as int == i,
{
    if !(exists|j: int| 0 <= j < n && #[trigger] order[j] as int == i) {
        let ints = order.map_values(|u: usize| u as int);
        assert(ints.no_duplicates()) by {
            assert forall|a: int, b: int|
                0 <= a < ints.len() && 0 <= b < ints.len() && a != b implies ints[a]
                != ints[b] by {
                assert(order[a] != order[b]);
            }
        }
        ints.unique_seq_to_set();
        let range = set_int_range(0, n).remove(i);
        lemma_int_range(0, n);
        assert(ints.to_set().subset_of(range)) by {
            assert forall|v: int| #[trigger] ints.to_set().contains(v) implies range.contains(
                v) by {
                let j = choose|j: int| 0 <= j < ints.len() && ints[j] == v;
                assert(order[j] as int == v);
            }
        }
        lemma_len_subset(ints.to_set(), range);
    }
}

/// Recompute every node's world transform, walking the hierarchy parents
/// first. Local transforms, names, types and child lists are untouched; on
/// return every node satisfies the propagation equation.
pub fn propagate_world_transforms(
    nodes: &mut Vec<Node>,
    parent: &Vec<Option<usize>>,
    order: &Vec<usize>,
)
    requires
        children_valid(old(nodes)@),
        parent_consistent(old(nodes)@, parent@),
        order_ok(old(nodes)@.len() as int, parent@, order@),
    ensures
        final(nodes)@.len() == old(nodes)@.len(),
        forall|i: int|
            0 <= i < old(nodes)@.len() ==> #[trigger] final(nodes)@[i] == with_world(
                old(nodes)@[i],
                final(nodes)@[i].world_transform,
            ),
        forall|i: int|
            0 <= i < old(nodes)@.len() ==> world_fixpoint_at(final(nodes)@, parent@, i),
{
    let n: usize = nodes.len();
    let mut j: usize = 0;
    while j < n
        invariant
            n == old(nodes)@.len(),
            nodes@.len() == n,
            j <= n,
            parent_consistent(old(nodes)@, parent@),
            order_ok(n as int, parent@, order@),
            parent@.len() == n,
            order@.len() == n,
            forall|i: int|
                0 <= i < n ==> #[trigger] nodes@[i] == with_world(
                    old(nodes)@[i],
                    nodes@[i].world_transform,
                ),
            forall|j2: int| 0 <= j2 < j ==> world_fixpoint_at(nodes@, parent@, order@[j2] as int),
        decreases n - j,
    {
        let i: usize = order[j];
        let pw: Mat4 = match parent[i] {
            Some(p) => {
                proof {
                    assert(parent@[i as int] is Some);
                }
                nodes[p].world_transform
            },
            None => mat_identity_ex(),
        };
        let local: Mat4 = trs_mat(&nodes[i].translation, &nodes[i].rotation, &nodes[i].scale);
        let w: Mat4 = mat_mul(&pw, &local);
        let ghost prev_nodes = nodes@;
        nodes[i].world_transform = w;
        proof {
            assert(nodes@ == prev_nodes.update(i as int, with_world(prev_nodes[i as int], w)));
            assert forall|j2: int|
                0 <= j2 < j + 1 implies world_fixpoint_at(nodes@, parent@, order@[j2] as int) by {
                let i2 = order@[j2] as int;
                if j2 < j {
                    assert(order@[j2] != order@[j as int]);
                    assert(nodes@[i2] == prev_nodes[i2]);
                    if parent@[i2] is Some {
                        let p2 = parent@[i2]->0;
                        let j3 = choose|j3: int| 0 <= j3 < j2 && #[trigger] order@[j3] == p2;
                        assert(order@[j3] != order@[j as int]);
                        assert(nodes@[p2 as int] == prev_nodes[p2 as int]);
                    }
                } else {
                    if parent@[i2] is Some {
                        let p2 = parent@[i2]->0;
                        let j3 = choose|j3: int| 0 <= j3 < j2 && #[trigger] order@[j3] == p2;
                        assert(order@[j3] != order@[j as int]);
                        assert(nodes@[p2 as int] == prev_nodes[p2 as int]);
                    }
                }
            }
        }
        j += 1;
    }
    proof {
        assert forall|i: int| 0 <= i < n implies world_fixpoint_at(nodes@, parent@, i) by {
            lemma_order_covers(order@, n as int, i);
            let j2 = choose|j2: int| 0 <= j2 < n && #[trigger] order@[j2] as int == i;
            assert(world_fixpoint_at(nodes@, parent@, order@[j2] as int));
        }
    }
}

proof fn lemma_world_determined_at(
    a: Seq<Node>,
    b: Seq<Node>,
    parent: Seq<Option<usize>>,
    order: Seq<usize>,
    j: int,
)
    requires
        a.len() == b.len(),
        order_ok(a.len() as int, parent, order),
        parent.len() == a.len(),
        forall|i: int|
            0 <= i < a.len() && #[trigger] parent[i] is Some ==> ((parent[i]->0) as int) < a.len(),
        forall|i: int| 0 <= i < a.len() ==> local_mat_of(#[trigger] a[i]) == local_mat_of(b[i]),
        forall|i: int| 0 <= i < a.len() ==> world_fixpoint_at(a, parent, i),
        forall|i: int| 0 <= i < b.len() ==> world_fixpoint_at(b, parent, i),
        0 <= j < order.len(),
    ensures
        a[order[j] as int].world_transform == b[order[j] as int].world_transform,
    decreases j,
{
    let i = order[j] as int;
    assert(world_fixpoint_at(a, parent, i));
    assert(world_fixpoint_at(b, parent, i));
    if parent[i] is Some {
        let p = (parent[i]->0) as int;
        let j2 = choose|j2: int| 0 <= j2 < j && #[trigger] order[j2] == parent[i]->0;
        lemma_world_determined_at(a, b, parent, order, j2);
        assert(a[p].world_transform == b[p].world_transform);
        assert(parent_world(a, parent, i) == parent_world(b, parent, i));
    }
}

/// The propagation equations have exactly one solution: two node tables with
/// the same local poses over the same hierarchy, both satisfying the
/// equation everywhere, carry the same world transforms.
pub proof fn lemma_world_transforms_determined(
    a: Seq<Node>,
    b: Seq<Node>,
    parent: Seq<Option<usize>>,
    order: Seq<usize>,
)
    requires
        a.len() == b.len(),
        parent.len() == a.len(),
        order_ok(a.len() as int, parent, order),
        forall|i: int|
            0 <= i < a.len() && #[trigger] parent[i] is Some ==> ((parent[i]->0) as int) < a.len(),
        forall|i: int| 0 <= i < a.len() ==> local_mat_of(#[trigger] a[i]) == local_mat_of(b[i]),
        forall|i: int| 0 <= i < a.len() ==> world_fixpoint_at(a, parent, i),
        forall|i: int| 0 <= i < b.len() ==> world_fixpoint_at(b, parent, i),
    ensures
        forall|i: int|
            0 <= i < a.len() ==> (#[trigger] a[i]).world_transform == b[i].world_transform,
{
    assert forall|i: int|
        0 <= i < a.len() implies (#[trigger] a[i]).world_transform
        == b[i].world_transform by {
        lemma_order_covers(order, a.len() as int, i);
        let j = choose|j: int| 0 <= j < a.len() && #[trigger] order[j] as int == i;
        lemma_world_determined_at(a, b, parent, order, j);
    }
}

/// Resolve the joint palette: one matrix per joint, in palette order, the
/// joint node's world transform times the joint's inverse bind matrix.
pub fn resolve_palette(nodes: &Vec<Node>, joints: &Vec<usize>, inverse_bind: &Vec<Mat4>) -> (palette:
    Vec<Mat4>)
    requires
        joints@.len() == inverse_bind@.len(),
        forall|k: int| 0 <= k < joints@.len() ==> (#[trigger] joints@[k] as int) < nodes@.len(),
    ensures
        palette@.len() == joints@.len(),
        forall|k: int|
            0 <= k < joints@.len() ==> #[trigger] palette@[k] == mat_mul_s(
                nodes@[joints@[k] as int].world_transform,
                inverse_bind@[k],
            ),
{
    let mut palette: Vec<Mat4> = Vec::new();
    let mut k: usize = 0;
    while k < joints.len()
        invariant
            joints@.len() == inverse_bind@.len(),
            forall|k2: int| 0 <= k2 < joints@.len() ==> (#[trigger] joints@[k2] as int)
                < nodes@.len(),
            k <= joints@.len(),
            palette@.len() == k,
            forall|k2: int|
                0 <= k2 < k ==> #[trigger] palette@[k2] == mat_mul_s(
                    nodes@[joints@[k2] as int].world_transform,
                    inverse_bind@[k2],
                ),
        decreases joints@.len() - k,
    {
        let joint: usize = joints[k];
        palette.push(mat_mul(&nodes[joint].world_transform, &inverse_bind[k]));
        k += 1;
    }
    palette
}

/// The per-instance transforms of mesh-carrying nodes, in node order: each
/// node tagged with a mesh contributes that mesh index and the node's current
/// world transform.
pub open spec fn mesh_instances_s(nodes: Seq<Node>) -> Seq<(usize, Mat4)>
    decreases nodes.len(),
{
    if nodes.len() == 0 {
        Seq::empty()
    } else {
        let rest = mesh_instances_s(nodes.drop_last());
        match nodes.last().node_type {
            NodeType::Mesh { mesh } => rest.push((mesh, nodes.last().world_transform)),
            NodeType::Generic => rest,
        }
    }
}

/// Collect, for every mesh-carrying node, the mesh index and the node's
/// world transform, in node order.
pub fn mesh_instance_transforms(nodes: &Vec<Node>) -> (out: Vec<(usize, Mat4)>)
    ensures
        out@ == mesh_instances_s(nodes@),
{
    let mut out: Vec<(usize, Mat4)> = Vec::new();
    let mut i: usize = 0;
    while i < nodes.len()
        invariant
            i <= nodes@.len(),
            out@ == mesh_instances_s(nodes@.take(i as int)),
        decreases nodes@.len() - i,
    {
        proof {
            assert(nodes@.take(i + 1).drop_last() =~= nodes@.take(i as int));
            assert(nodes@.take(i + 1).last() == nodes@[i as int]);
        }
        match nodes[i].node_type {
            NodeType::Mesh { mesh } => {
                out.push((mesh, nodes[i].world_transform));
            },
            NodeType::Generic => {},
        }
        i += 1;
    }
    proof {
        assert(nodes@.take(nodes@.len() as int) =~= nodes@);
    }
    out
}

} // verus!
