//! The animated object: the scene graph, its meshes, skin and clips, and the
//! per-frame update that samples the active clip into node poses, propagates
//! world transforms, and feeds the joint palette and instance transforms.

use crate::anim::{advance_s, animation_wf, sample_quat_s, sample_rotation, sample_translation,
    sample_vec3_s, Animation, Keyframes, Track};
use crate::fixed::fx_add;
use crate::math::{mat_mul_s, Mat4};
use crate::mesh::Mesh;
use crate::scene::{children_valid, mesh_instance_transforms, mesh_instances_s, Node,
    NodeType, order_ok, parent_consistent, propagate_world_transforms, resolve_palette, with_world,
    world_fixpoint_at};
use vstd::prelude::*;

verus! {

/// The parentless set: every parentless node index once, and nothing else.
pub open spec fn roots_ok(n: int, parent: Seq<Option<usize>>, roots: Seq<usize>) -> bool {
    &&& roots.no_duplicates()
    &&& forall|j: int|
        0 <= j < roots.len() ==> ((#[trigger] roots[j]) as int) < n && parent[roots[j] as int]
            is None
    &&& forall|i: int| 0 <= i < n && #[trigger] parent[i] is None ==> roots.contains(i as usize)
}

/// A playable animated object. The hierarchy fields `parent`, `order` and
/// `parentless_nodes` are derived from the child lists at import and must be
/// kept consistent with them ([`AnimatedObject::wf`]); treat them as
/// read-only.
#[derive(Debug)]
pub struct AnimatedObject {
    pub meshes: Vec<Mesh>,
    pub nodes: Vec<Node>,
    pub animations: Vec<Animation>,
    /// Which clip plays; any out-of-range value means "no animation".
    pub current_animation: usize,
    /// Playback time since the active clip last looped, fixed-point seconds.
    pub elapsed: i64,
    /// Joint node indices of the skin, in palette order.
    pub joints: Vec<usize>,
    /// One inverse bind matrix per joint, in the same order.
    pub inverse_bind_matrices: Vec<Mat4>,
    /// The hierarchy roots: nodes no child list mentions.
    pub parentless_nodes: Vec<usize>,
    /// The parent of each node, `None` for a parentless node.
    pub parent: Vec<Option<usize>>,
    /// A traversal order that visits parents before their children.
    pub order: Vec<usize>,
}

impl AnimatedObject {
    /// Everything the evaluator relies on: valid cross-references, a parent
    /// map and traversal order consistent with the child lists, well-formed
    /// tracks, and a joint list parallel to the inverse bind matrices.
    pub open spec fn wf(self) -> bool {
        &&& children_valid(self.nodes@)
        &&& parent_consistent(self.nodes@, self.parent@)
        &&& order_ok(self.nodes@.len() as int, self.parent@, self.order@)
        &&& roots_ok(self.nodes@.len() as int, self.parent@, self.parentless_nodes@)
        &&& self.joints@.len() == self.inverse_bind_matrices@.len()
        &&& forall|k: int|
            0 <= k < self.joints@.len() ==> ((#[trigger] self.joints@[k]) as int)
                < self.nodes@.len()
        &&& forall|a: int|
            0 <= a < self.animations@.len() ==> animation_wf(
                #[trigger] self.animations@[a],
                self.nodes@.len() as int,
            )
        &&& forall|i: int|
            0 <= i < self.nodes@.len() ==> match (#[trigger] self.nodes@[i]).node_type {
                NodeType::Mesh { mesh } => (mesh as int) < self.meshes@.len(),
                NodeType::Generic => true,
            }
    }
}

/// One track written into the node table: a rotation track replaces only the
/// target's rotation, a translation track only its translation; other kinds,
/// and a target outside the table, change nothing.
pub open spec fn apply_track_s(nodes: Seq<Node>, tr: Track, time: i64) -> Seq<Node> {
    if (tr.target as int) < nodes.len() {
        let n = nodes[tr.target as int];
        match tr.keyframes {
            Keyframes::Rotations(qs) => nodes.update(
                tr.target as int,
                Node { rotation: sample_quat_s(tr.timestamps@, qs@, time), ..n },
            ),
            Keyframes::Translations(vs) => nodes.update(
                tr.target as int,
                Node { translation: sample_vec3_s(tr.timestamps@, vs@, time), ..n },
            ),
            Keyframes::Other => nodes,
        }
    } else {
        nodes
    }
}

/// All tracks of a clip written into the node table, in track order.
pub open spec fn apply_tracks_s(nodes: Seq<Node>, tracks: Seq<Track>, time: i64) -> Seq<Node>
    decreases tracks.len(),
{
    if tracks.len() == 0 {
        nodes
    } else {
        apply_track_s(apply_tracks_s(nodes, tracks.drop_last(), time), tracks.last(), time)
    }
}

/// Track application only ever rewrites rotations and translations: names,
/// types, scales, child lists and world transforms all stay as they were.
pub proof fn lemma_apply_tracks_shape(nodes: Seq<Node>, tracks: Seq<Track>, time: i64)
    ensures
        apply_tracks_s(nodes, tracks, time).len() == nodes.len(),
        forall|i: int|
            0 <= i < nodes.len() ==> {
                let r = #[trigger] apply_tracks_s(nodes, tracks, time)[i];
                r.name == nodes[i].name && r.node_type == nodes[i].node_type && r.scale
                    == nodes[i].scale && r.children == nodes[i].children && r.world_transform
                    == nodes[i].world_transform
            },
    decreases tracks.len(),
{
    if tracks.len() > 0 {
        lemma_apply_tracks_shape(nodes, tracks.drop_last(), time);
    }
}

/// Two node tables with the same child lists and node types support the same
/// hierarchy structure.
proof fn lemma_hier_transfer(a: Seq<Node>, b: Seq<Node>, parent: Seq<Option<usize>>)
    requires
        a.len() == b.len(),
        forall|i: int|
            0 <= i < a.len() ==> (#[trigger] b[i]).children == a[i].children,
        children_valid(a),
        parent_consistent(a, parent),
    ensures
        children_valid(b),
        parent_consistent(b, parent),
{
    assert forall|i: int, k: int|
        0 <= i < b.len() && 0 <= k < b[i].children@.len() implies (
    #[trigger] b[i].children@[k] as int) < b.len() by {
        assert(a[i].children@[k] == b[i].children@[k]);
    }
    assert forall|p: int, k: int|
        0 <= p < b.len() && 0 <= k < b[p].children@.len() implies parent[(
    #[trigger] b[p].children@[k]) as int] == Some(p as usize) by {
        assert(a[p].children@[k] == b[p].children@[k]);
    }
    assert forall|c: int|
        0 <= c < b.len() && #[trigger] parent[c] is Some implies ((parent[c]->0) as int) < b.len()
            && b[(parent[c]->0) as int].children@.contains(c as usize) by {
        let p = (parent[c]->0) as int;
        assert(a[p].children@.contains(c as usize));
        assert(a[p].children == b[p].children);
    }
}

/// The node poses after one update tick: with an active clip, its tracks
/// sampled at the advanced playback time and written over the current poses;
/// without one, the poses held unchanged.
pub open spec fn posed_nodes(o: AnimatedObject, dt: i64) -> Seq<Node> {
    if (o.current_animation as int) < o.animations@.len() {
        let clip = o.animations@[o.current_animation as int];
        apply_tracks_s(o.nodes@, clip.tracks@, advance_s(o.elapsed, dt, clip.length))
    } else {
        o.nodes@
    }
}

/// The playback time after one update tick.
pub open spec fn elapsed_after(o: AnimatedObject, dt: i64) -> i64 {
    if (o.current_animation as int) < o.animations@.len() {
        advance_s(o.elapsed, dt, o.animations@[o.current_animation as int].length)
    } else {
        o.elapsed
    }
}

impl AnimatedObject {
    /// Recompute every node's world transform from the current poses, parents
    /// first. Everything else is left as it is.
    pub fn update_world_matrices(&mut self)
        requires
            old(self).wf(),
        ensures
            final(self).wf(),
            final(self).meshes == old(self).meshes,
            final(self).animations == old(self).animations,
            final(self).current_animation == old(self).current_animation,
            final(self).elapsed == old(self).elapsed,
            final(self).joints == old(self).joints,
            final(self).inverse_bind_matrices == old(self).inverse_bind_matrices,
            final(self).parentless_nodes == old(self).parentless_nodes,
            final(self).parent == old(self).parent,
            final(self).order == old(self).order,
            final(self).nodes@.len() == old(self).nodes@.len(),
            forall|i: int|
                0 <= i < old(self).nodes@.len() ==> #[trigger] final(self).nodes@[i] == with_world(
                    old(self).nodes@[i],
                    final(self).nodes@[i].world_transform,
                ),
            forall|i: int|
                0 <= i < old(self).nodes@.len() ==> world_fixpoint_at(
                    final(self).nodes@,
                    old(self).parent@,
                    i,
                ),
    {
        propagate_world_transforms(&mut self.nodes, &self.parent, &self.order);
        proof {
            assert forall|i: int|
                0 <= i < self.nodes@.len() implies (#[trigger] self.nodes@[i]).children == old(
                self,
            ).nodes@[i].children by {
                assert(self.nodes@[i] == with_world(
                    old(self).nodes@[i],
                    self.nodes@[i].world_transform,
                ));
            }
            lemma_hier_transfer(old(self).nodes@, self.nodes@, self.parent@);
            assert forall|i: int|
                0 <= i < self.nodes@.len() implies match (#[trigger] self.nodes@[i]).node_type {
                NodeType::Mesh { mesh } => (mesh as int) < self.meshes@.len(),
                NodeType::Generic => true,
            } by {
                assert(self.nodes@[i] == with_world(
                    old(self).nodes@[i],
                    self.nodes@[i].world_transform,
                ));
            }
        }
    }

    /// One frame step: advance the playback clock of the active clip (a hard
    /// reset to zero past the clip's length), sample every track of the clip
    /// at that time into the target nodes' poses, then propagate world
    /// transforms. An out-of-range `current_animation` holds the pose and the
    /// clock. Never fails: degenerate clips and tracks are valid input.
    pub fn update(&mut self, dt: i64)
        requires
            old(self).wf(),
        ensures
            final(self).wf(),
            final(self).meshes == old(self).meshes,
            final(self).animations == old(self).animations,
            final(self).current_animation == old(self).current_animation,
            final(self).joints == old(self).joints,
            final(self).inverse_bind_matrices == old(self).inverse_bind_matrices,
            final(self).parentless_nodes == old(self).parentless_nodes,
            final(self).parent == old(self).parent,
            final(self).order == old(self).order,
            final(self).elapsed == elapsed_after(*old(self), dt),
            final(self).nodes@.len() == old(self).nodes@.len(),
            forall|i: int|
                0 <= i < old(self).nodes@.len() ==> #[trigger] final(self).nodes@[i] == with_world(
                    posed_nodes(*old(self), dt)[i],
                    final(self).nodes@[i].world_transform,
                ),
            forall|i: int|
                0 <= i < old(self).nodes@.len() ==> world_fixpoint_at(
                    final(self).nodes@,
                    old(self).parent@,
                    i,
                ),
    {
        let n_anims: usize = self.animations.len();
        if self.current_animation < n_anims {
            let cur: usize = self.current_animation;
            let ghost clip = self.animations@[cur as int];
            let length: i64 = self.animations[cur].length;
            let e1: i64 = fx_add(self.elapsed, dt);
            let e: i64 = if e1 > length {
                0
            } else {
                e1
            };
            self.elapsed = e;
            proof {
                assert(e == advance_s(old(self).elapsed, dt, clip.length));
            }
            let n_tracks: usize = self.animations[cur].tracks.len();
            let mut t: usize = 0;
            while t < n_tracks
                invariant
                    old(self).wf(),
                    self.meshes == old(self).meshes,
                    self.animations == old(self).animations,
                    self.current_animation == old(self).current_animation,
                    self.joints == old(self).joints,
                    self.inverse_bind_matrices == old(self).inverse_bind_matrices,
                    self.parentless_nodes == old(self).parentless_nodes,
                    self.parent == old(self).parent,
                    self.order == old(self).order,
                    self.elapsed == e,
                    cur == old(self).current_animation,
                    (cur as int) < self.animations@.len(),
                    clip == self.animations@[cur as int],
                    n_tracks == clip.tracks@.len(),
                    t <= n_tracks,
                    self.nodes@.len() == old(self).nodes@.len(),
                    self.nodes@ == apply_tracks_s(old(self).nodes@, clip.tracks@.take(t as int), e),
                decreases n_tracks - t,
            {
                proof {
                    assert(animation_wf(clip, old(self).nodes@.len() as int));
                    assert(track_ok_at(clip, t as int, old(self).nodes@.len() as int));
                    lemma_apply_tracks_shape(old(self).nodes@, clip.tracks@.take(t as int), e);
                }
                let target: usize = self.animations[cur].tracks[t].target;
                let ghost prev_nodes = self.nodes@;
                match &self.animations[cur].tracks[t].keyframes {
                    Keyframes::Rotations(qs) => {
                        let q = sample_rotation(&self.animations[cur].tracks[t].timestamps, qs, e);
                        self.nodes[target].rotation = q;
                        proof {
                            assert(self.nodes@ == prev_nodes.update(
                                target as int,
                                Node { rotation: q, ..prev_nodes[target as int] },
                            ));
                        }
                    },
                    Keyframes::Translations(vs) => {
                        let v = sample_translation(
                            &self.animations[cur].tracks[t].timestamps,
                            vs,
                            e,
                        );
                        self.nodes[target].translation = v;
                        proof {
                            assert(self.nodes@ == prev_nodes.update(
                                target as int,
                                Node { translation: v, ..prev_nodes[target as int] },
                            ));
                        }
                    },
                    Keyframes::Other => {},
                }
                proof {
                    assert(clip.tracks@.take(t + 1).drop_last() =~= clip.tracks@.take(t as int));
                    assert(clip.tracks@.take(t + 1).last() == clip.tracks@[t as int]);
                    assert(self.nodes@ == apply_track_s(prev_nodes, clip.tracks@[t as int], e));
                }
                t += 1;
            }
            proof {
                assert(clip.tracks@.take(n_tracks as int) =~= clip.tracks@);
                assert(self.nodes@ == posed_nodes(*old(self), dt));
            }
        } else {
            proof {
                assert(self.nodes@ == posed_nodes(*old(self), dt));
            }
        }
        proof {
            lemma_apply_tracks_posed(*old(self), dt);
            lemma_hier_transfer(old(self).nodes@, self.nodes@, self.parent@);
            assert forall|i: int|
                0 <= i < self.nodes@.len() implies match (#[trigger] self.nodes@[i]).node_type {
                NodeType::Mesh { mesh } => (mesh as int) < self.meshes@.len(),
                NodeType::Generic => true,
            } by {
                assert(self.nodes@[i].node_type == old(self).nodes@[i].node_type);
            }
            assert(self.wf());
        }
        self.update_world_matrices();
    }

    /// Resolve the joint palette from the current world transforms: one
    /// matrix per joint, in palette order, the joint node's world transform
    /// times the joint's inverse bind matrix.
    pub fn joint_matrices(&self) -> (palette: Vec<Mat4>)
        requires
            self.wf(),
        ensures
            palette@.len() == self.joints@.len(),
            forall|k: int|
                0 <= k < self.joints@.len() ==> #[trigger] palette@[k] == mat_mul_s(
                    self.nodes@[self.joints@[k] as int].world_transform,
                    self.inverse_bind_matrices@[k],
                ),
    {
        resolve_palette(&self.nodes, &self.joints, &self.inverse_bind_matrices)
    }

    /// The per-instance transform of every mesh-carrying node, in node order.
    pub fn instance_transforms(&self) -> (out: Vec<(usize, Mat4)>)
        ensures
            out@ == mesh_instances_s(self.nodes@),
    {
        mesh_instance_transforms(&self.nodes)
    }
}

/// Component isolation: a rotation-only track and a translation-only track
/// aimed at the same node commute, and together they leave the node with the
/// sampled rotation, the sampled translation, an untouched scale, and every
/// other node as it was.
pub proof fn lemma_component_isolation(nodes: Seq<Node>, rt: Track, tt: Track, time: i64)
    requires
        rt.keyframes is Rotations,
        tt.keyframes is Translations,
        rt.target == tt.target,
        (rt.target as int) < nodes.len(),
    ensures
        apply_track_s(apply_track_s(nodes, rt, time), tt, time) =~= apply_track_s(
            apply_track_s(nodes, tt, time),
            rt,
            time,
        ),
        ({
            let out = apply_track_s(apply_track_s(nodes, rt, time), tt, time);
            let i = rt.target as int;
            &&& out.len() == nodes.len()
            &&& (rt.keyframes matches Keyframes::Rotations(qs) ==> out[i].rotation
                == crate::anim::sample_quat_s(rt.timestamps@, qs@, time))
            &&& (tt.keyframes matches Keyframes::Translations(vs) ==> out[i].translation
                == crate::anim::sample_vec3_s(tt.timestamps@, vs@, time))
            &&& out[i].scale == nodes[i].scale
            &&& out[i].world_transform == nodes[i].world_transform
            &&& out[i].node_type == nodes[i].node_type
            &&& forall|j: int| 0 <= j < nodes.len() && j != i ==> out[j] == nodes[j]
        }),
{
}

/// The parentless-set count: the parentless nodes and the nodes with a parent
/// partition the node table, so a forest of `n` nodes has exactly
/// `n - (nodes with a parent)` parentless nodes.
pub proof fn lemma_parentless_count(n: int, parent: Seq<Option<usize>>, roots: Seq<usize>)
    requires
        parent.len() == n,
        0 <= n <= usize::MAX,
        roots_ok(n, parent, roots),
    ensures
        with_parent_set(n, parent).finite(),
        roots.len() + with_parent_set(n, parent).len() == n,
{
    broadcast use vstd::seq_lib::seq_to_set_is_finite;

    let ints = roots.map_values(|u: usize| u as int);
    assert(ints.no_duplicates()) by {
        assert forall|a: int, b: int|
            0 <= a < ints.len() && 0 <= b < ints.len() && a != b implies ints[a] != ints[b] by {
            assert(roots[a] != roots[b]);
        }
    }
    ints.unique_seq_to_set();
    let a = ints.to_set();
    let b = with_parent_set(n, parent);
    vstd::set_lib::lemma_int_range(0, n);
    assert(a =~= Set::new(|i: int| 0 <= i < n && parent[i] is None)) by {
        assert forall|v: int| #[trigger] a.contains(v) implies 0 <= v < n && parent[v]
            is None by {
            let j = choose|j: int| 0 <= j < ints.len() && ints[j] == v;
            assert(roots[j] as int == v);
        }
        assert forall|v: int| 0 <= v < n && parent[v] is None implies a.contains(v) by {
            assert(roots.contains(v as usize));
            let j = choose|j: int| 0 <= j < roots.len() && roots[j] == v as usize;
            assert(ints[j] == v);
        }
    }
    assert(a + b =~= vstd::set_lib::set_int_range(0, n));
    assert(b.subset_of(vstd::set_lib::set_int_range(0, n)));
    vstd::set_lib::lemma_len_subset(b, vstd::set_lib::set_int_range(0, n));
    assert(a.disjoint(b));
    vstd::set_lib::lemma_set_disjoint_lens(a, b);
}

/// The node indices that appear in some child list, as a set.
pub open spec fn with_parent_set(n: int, parent: Seq<Option<usize>>) -> Set<int> {
    Set::new(|i: int| 0 <= i < n && parent[i] is Some)
}

/// A joint whose inverse bind matrix is the identity (what an absent
/// inverse-bind accessor means) contributes its node's world transform to
/// the palette unchanged.
pub proof fn lemma_identity_bind_palette(world: Mat4)
    ensures
        mat_mul_s(world, crate::math::mat_identity()) == world,
{
    crate::math::lemma_mat_mul_identity_right(world);
}

/// Track `t` of a clip is well-formed and targets a node inside the table.
spec fn track_ok_at(clip: Animation, t: int, n_nodes: int) -> bool {
    &&& 0 <= t < clip.tracks@.len()
    &&& crate::anim::track_wf(clip.tracks@[t])
    &&& (clip.tracks@[t].target as int) < n_nodes
}

proof fn lemma_apply_tracks_posed(o: AnimatedObject, dt: i64)
    ensures
        posed_nodes(o, dt).len() == o.nodes@.len(),
        forall|i: int|
            0 <= i < o.nodes@.len() ==> (#[trigger] posed_nodes(o, dt)[i]).children
                == o.nodes@[i].children && posed_nodes(o, dt)[i].node_type
                == o.nodes@[i].node_type,
{
    if (o.current_animation as int) < o.animations@.len() {
        let clip = o.animations@[o.current_animation as int];
        lemma_apply_tracks_shape(o.nodes@, clip.tracks@, advance_s(o.elapsed, dt, clip.length));
    }
}

} // verus!
