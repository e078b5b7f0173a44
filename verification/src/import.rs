//! Building an [`AnimatedObject`] from a plain scene description.
//!
//! The raw document mirrors what a scene-interchange file provides once its
//! accessors are decoded to plain values: meshes as optional attribute lists,
//! nodes with decomposed local transforms and child-index lists, animations
//! as channels of timestamps and output values, and skins. The import
//! validates everything the evaluator relies on and fails with an
//! [`ImportError`] instead of producing a partial object.

use crate::anim::{animation_wf, non_decreasing, track_wf, Animation, Keyframes, Track};
use crate::math::{mat_identity, mat_identity_ex, trs_mat, Mat4, Quat, Vec2, Vec3, vec2_zero,
    vec3_zero};
use crate::mesh::{pack4, pack4_s, AnimatedVertex, Mesh};
use crate::object::{roots_ok, AnimatedObject};
use crate::scene::{children_valid, local_mat_of, order_ok, parent_consistent, Node, NodeType};
use vstd::seq_lib::*;
use vstd::set_lib::{lemma_int_range, lemma_len_subset, set_int_range};
use vstd::prelude::*;

verus! {

/// One mesh primitive, attributes decoded to plain values. Every attribute
/// but the positions is optional; a missing attribute leaves the matching
/// vertex field at its zero default.
#[derive(Debug)]
pub struct RawPrimitive {
    pub positions: Option<Vec<Vec3>>,
    pub normals: Option<Vec<Vec3>>,
    pub uvs: Option<Vec<Vec2>>,
    /// Four normalized 8-bit joint weights per vertex.
    pub weights: Option<Vec<(u8, u8, u8, u8)>>,
    /// Four joint indices per vertex, as the document stores them; packing
    /// keeps their low byte.
    pub joints: Option<Vec<(u16, u16, u16, u16)>>,
    pub indices: Option<Vec<u32>>,
}

/// One mesh: its primitives, concatenated at import.
#[derive(Debug)]
pub struct RawMesh {
    pub primitives: Vec<RawPrimitive>,
}

/// One scene node as the document lists it.
#[derive(Debug)]
pub struct RawNode {
    pub name: String,
    /// The mesh this node renders, if any.
    pub mesh: Option<usize>,
    pub translation: Vec3,
    pub rotation: Quat,
    pub scale: Vec3,
    pub children: Vec<usize>,
}

/// A channel's timestamp accessor: a plain linear array of seconds, or some
/// encoding the importer does not support.
#[derive(Debug)]
pub enum RawTimestamps {
    Standard(Vec<i64>),
    Unsupported,
}

/// A channel's output values, tagged by the animated property.
#[derive(Debug)]
pub enum RawOutputs {
    Rotations(Vec<Quat>),
    Translations(Vec<Vec3>),
    /// A property kind that is parsed but not applied (scale, morph weights).
    Other,
}

/// One animation channel: the node it targets, its timestamps and outputs.
#[derive(Debug)]
pub struct RawChannel {
    pub target: usize,
    pub timestamps: RawTimestamps,
    /// `None` models a channel whose output accessor is absent.
    pub outputs: Option<RawOutputs>,
}

/// One animation clip as the document lists it.
#[derive(Debug)]
pub struct RawAnimation {
    pub name: String,
    pub channels: Vec<RawChannel>,
}

/// One skin: joint node indices in palette order, and the inverse bind
/// matrices if the document carries them (absent means identity for each).
#[derive(Debug)]
pub struct RawSkin {
    pub joints: Vec<usize>,
    pub inverse_bind_matrices: Option<Vec<Mat4>>,
}

/// A whole scene document, decoded to plain values.
#[derive(Debug)]
pub struct RawDocument {
    pub meshes: Vec<RawMesh>,
    pub nodes: Vec<RawNode>,
    pub animations: Vec<RawAnimation>,
    pub skins: Vec<RawSkin>,
}

/// Why an import fails. No partial object is ever returned.
#[derive(Clone, Copy, Debug, PartialEq, Eq, Structural)]
pub enum ImportError {
    /// A mesh primitive has no position attribute.
    MissingPositions,
    /// A referenced binary buffer could not be read. The importer itself
    /// never raises this; a caller that decodes the document does, before
    /// any raw document exists.
    MissingBuffer,
    /// A channel's timestamp accessor is not a plain linear array.
    UnsupportedAccessorEncoding,
    /// An animation channel has no output values.
    MissingChannelOutput,
    /// Dangling indices, a non-forest node hierarchy, an empty or decreasing
    /// timestamp list, or mismatched parallel list lengths.
    MalformedDocument,
}

// ---------------------------------------------------------------------------
// What the import checks, in the order it checks it.

/// The first defect among the primitives of one mesh, scanning from `i`.
pub open spec fn prims_error_s(ps: Seq<RawPrimitive>, i: int) -> Option<ImportError>
    decreases ps.len() - i,
{
    if i < 0 || i >= ps.len() {
        None
    } else if ps[i].positions is None {
        Some(ImportError::MissingPositions)
    } else {
        prims_error_s(ps, i + 1)
    }
}

/// The first defect among the meshes, scanning from `i`.
pub open spec fn meshes_error_s(ms: Seq<RawMesh>, i: int) -> Option<ImportError>
    decreases ms.len() - i,
{
    if i < 0 || i >= ms.len() {
        None
    } else {
        match prims_error_s(ms[i].primitives@, 0) {
            Some(e) => Some(e),
            None => meshes_error_s(ms, i + 1),
        }
    }
}

/// The defect of one animation channel, if any: an unsupported timestamp
/// encoding, a missing output, or (as a malformed document) an empty or
/// decreasing timestamp list, a dangling target, or a value list that does
/// not pair one to one with the timestamps.
pub open spec fn channel_error_s(c: RawChannel, n_nodes: int) -> Option<ImportError> {
    if !(c.timestamps is Standard) {
        Some(ImportError::UnsupportedAccessorEncoding)
    } else if c.outputs is None {
        Some(ImportError::MissingChannelOutput)
    } else {
        let ts = c.timestamps->0@;
        if ts.len() == 0 || !non_decreasing(ts) || n_nodes <= c.target as int {
            Some(ImportError::MalformedDocument)
        } else {
            match c.outputs->0 {
                RawOutputs::Rotations(qs) => if qs@.len() == ts.len() {
                    None
                } else {
                    Some(ImportError::MalformedDocument)
                },
                RawOutputs::Translations(vs) => if vs@.len() == ts.len() {
                    None
                } else {
                    Some(ImportError::MalformedDocument)
                },
                RawOutputs::Other => None,
            }
        }
    }
}

/// The first defect among one clip's channels, scanning from `i`.
pub open spec fn channels_error_s(cs: Seq<RawChannel>, n_nodes: int, i: int) -> Option<ImportError>
    decreases cs.len() - i,
{
    if i < 0 || i >= cs.len() {
        None
    } else {
        match channel_error_s(cs[i], n_nodes) {
            Some(e) => Some(e),
            None => channels_error_s(cs, n_nodes, i + 1),
        }
    }
}

/// The first defect among the animations, scanning from `i`.
pub open spec fn anims_error_s(anims: Seq<RawAnimation>, n_nodes: int, i: int) -> Option<
    ImportError,
>
    decreases anims.len() - i,
{
    if i < 0 || i >= anims.len() {
        None
    } else {
        match channels_error_s(anims[i].channels@, n_nodes, 0) {
            Some(e) => Some(e),
            None => anims_error_s(anims, n_nodes, i + 1),
        }
    }
}

/// Every child index points into the node table.
pub open spec fn raw_children_valid(nodes: Seq<RawNode>) -> bool {
    forall|i: int, k: int|
        0 <= i < nodes.len() && 0 <= k < nodes[i].children@.len() ==> (
        #[trigger] nodes[i].children@[k] as int) < nodes.len()
}

/// `parent` inverts the raw child lists (see
/// [`crate::scene::parent_consistent`]).
pub open spec fn raw_parent_consistent(nodes: Seq<RawNode>, parent: Seq<Option<usize>>) -> bool {
    &&& parent.len() == nodes.len()
    &&& forall|p: int, k: int|
        0 <= p < nodes.len() && 0 <= k < nodes[p].children@.len() ==> parent[(
        #[trigger] nodes[p].children@[k]) as int] == Some(p as usize)
    &&& forall|c: int|
        0 <= c < nodes.len() && #[trigger] parent[c] is Some ==> ((parent[c]->0) as int)
            < nodes.len() && nodes[(parent[c]->0) as int].children@.contains(c as usize)
}

/// The hierarchy is a forest: child indices are valid, a parent map inverts
/// the child lists (so no node has two parents), and some traversal order
/// visits parents before children (so there is no cycle).
pub open spec fn hierarchy_ok(nodes: Seq<RawNode>) -> bool {
    &&& raw_children_valid(nodes)
    &&& exists|parent: Seq<Option<usize>>, order: Seq<usize>|
        #![trigger raw_parent_consistent(nodes, parent), order_ok(nodes.len() as int, parent, order)]
        raw_parent_consistent(nodes, parent) && order_ok(nodes.len() as int, parent, order)
}

/// Every node's mesh reference points into the mesh table.
pub open spec fn mesh_refs_ok(nodes: Seq<RawNode>, n_meshes: int) -> bool {
    forall|i: int|
        0 <= i < nodes.len() ==> match (#[trigger] nodes[i]).mesh {
            Some(m) => (m as int) < n_meshes,
            None => true,
        }
}

/// The honored (first) skin is sound: joints point into the node table and
/// the inverse bind matrices, when present, pair one to one with the joints.
pub open spec fn skin_ok(skins: Seq<RawSkin>, n_nodes: int) -> bool {
    skins.len() == 0 || {
        let s = skins[0];
        &&& forall|k: int|
            0 <= k < s.joints@.len() ==> ((#[trigger] s.joints@[k]) as int) < n_nodes
        &&& (s.inverse_bind_matrices matches Some(ms) ==> ms@.len() == s.joints@.len())
    }
}

/// What import returns for a document: the first defect in scan order
/// (meshes, then animations, then the document structure), or nothing.
pub open spec fn import_error_s(doc: RawDocument) -> Option<ImportError> {
    match meshes_error_s(doc.meshes@, 0) {
        Some(e) => Some(e),
        None => match anims_error_s(doc.animations@, doc.nodes@.len() as int, 0) {
            Some(e) => Some(e),
            None => {
                if !(hierarchy_ok(doc.nodes@) && mesh_refs_ok(doc.nodes@, doc.meshes@.len() as int)
                    && skin_ok(doc.skins@, doc.nodes@.len() as int)) {
                    Some(ImportError::MalformedDocument)
                } else {
                    None
                }
            },
        },
    }
}

// ---------------------------------------------------------------------------
// Small helpers.

/// Copy a vector of plain values.
fn copy_vec<T: Copy>(v: &Vec<T>) -> (r: Vec<T>)
    ensures
        r@ == v@,
{
    let mut r: Vec<T> = Vec::new();
    let mut i: usize = 0;
    while i < v.len()
        invariant
            i <= v@.len(),
            r@ == v@.take(i as int),
        decreases v@.len() - i,
    {
        r.push(v[i]);
        proof {
            assert(v@.take(i + 1) =~= v@.take(i as int).push(v@[i as int]));
        }
        i += 1;
    }
    proof {
        assert(v@.take(v@.len() as int) =~= v@);
    }
    r
}

/// Each timestamp bounds the next, so each bounds all that follow.
proof fn lemma_adjacent_non_decreasing(ts: Seq<i64>, a: int, b: int)
    requires
        forall|k: int| 0 <= k < ts.len() - 1 ==> #[trigger] ts[k] <= ts[k + 1],
        0 <= a <= b < ts.len(),
    ensures
        ts[a] <= ts[b],
    decreases b - a,
{
    if a < b {
        lemma_adjacent_non_decreasing(ts, a + 1, b);
        assert(ts[a] <= ts[a + 1]);
    }
}

/// Decide whether the timestamps never decrease.
fn check_non_decreasing(ts: &Vec<i64>) -> (r: bool)
    ensures
        r == non_decreasing(ts@),
{
    let n: usize = ts.len();
    if n == 0 {
        return true;
    }
    let mut i: usize = 0;
    while i < n - 1
        invariant
            n == ts@.len(),
            1 <= n,
            i < n,
            forall|k: int| 0 <= k < i ==> #[trigger] ts@[k] <= ts@[k + 1],
        decreases n - i,
    {
        if ts[i] > ts[i + 1] {
            return false;
        }
        i += 1;
    }
    proof {
        assert forall|a: int, b: int|
            0 <= a <= b < ts@.len() implies #[trigger] ts@[a] <= #[trigger] ts@[b] by {
            lemma_adjacent_non_decreasing(ts@, a, b);
        }
    }
    true
}

// ---------------------------------------------------------------------------
// Meshes.

/// The vertex a primitive defines at index `i` of its positions: optional
/// attributes fall back to zero where absent or shorter than the positions;
/// weights and joint indices are packed a byte per channel (joint indices
/// keep their low byte).
pub open spec fn prim_vertex_s(p: RawPrimitive, i: int) -> AnimatedVertex {
    AnimatedVertex {
        position: p.positions->0@[i],
        normal: if p.normals is Some && i < p.normals->0@.len() {
            p.normals->0@[i]
        } else {
            vec3_zero()
        },
        uv: if p.uvs is Some && i < p.uvs->0@.len() {
            p.uvs->0@[i]
        } else {
            vec2_zero()
        },
        weights: if p.weights is Some && i < p.weights->0@.len() {
            pack4_s(
                p.weights->0@[i].0,
                p.weights->0@[i].1,
                p.weights->0@[i].2,
                p.weights->0@[i].3,
            )
        } else {
            0
        },
        joints: if p.joints is Some && i < p.joints->0@.len() {
            pack4_s(
                (p.joints->0@[i].0 % 256) as u8,
                (p.joints->0@[i].1 % 256) as u8,
                (p.joints->0@[i].2 % 256) as u8,
                (p.joints->0@[i].3 % 256) as u8,
            )
        } else {
            0
        },
    }
}

/// All vertices of one primitive, one per position.
pub open spec fn prim_vertices_s(p: RawPrimitive) -> Seq<AnimatedVertex> {
    Seq::new(p.positions->0@.len(), |i: int| prim_vertex_s(p, i))
}

/// The vertices of a mesh: its primitives' vertices, concatenated.
pub open spec fn prims_vertices_s(ps: Seq<RawPrimitive>) -> Seq<AnimatedVertex>
    decreases ps.len(),
{
    if ps.len() == 0 {
        Seq::empty()
    } else {
        prims_vertices_s(ps.drop_last()) + prim_vertices_s(ps.last())
    }
}

/// The index list of a mesh: its primitives' index lists, concatenated
/// (a primitive without one contributes nothing).
pub open spec fn prims_indices_s(ps: Seq<RawPrimitive>) -> Seq<u32>
    decreases ps.len(),
{
    if ps.len() == 0 {
        Seq::empty()
    } else {
        prims_indices_s(ps.drop_last()) + (if ps.last().indices is Some {
            ps.last().indices->0@
        } else {
            Seq::empty()
        })
    }
}

/// A built mesh holds exactly the raw mesh's concatenated vertices and
/// indices.
pub open spec fn mesh_matches(m: Mesh, raw: RawMesh) -> bool {
    &&& m.vertices@ == prims_vertices_s(raw.primitives@)
    &&& m.indices@ == prims_indices_s(raw.primitives@)
}

fn build_mesh(raw: &RawMesh) -> (res: Result<Mesh, ImportError>)
    ensures
        match res {
            Ok(m) => prims_error_s(raw.primitives@, 0) is None && mesh_matches(m, *raw),
            Err(e) => prims_error_s(raw.primitives@, 0) == Some(e),
        },
{
    let mut vertices: Vec<AnimatedVertex> = Vec::new();
    let mut indices: Vec<u32> = Vec::new();
    let n_prims: usize = raw.primitives.len();
    let mut i: usize = 0;
    while i < n_prims
        invariant
            n_prims == raw.primitives@.len(),
            i <= n_prims,
            prims_error_s(raw.primitives@, 0) == prims_error_s(raw.primitives@, i as int),
            vertices@ == prims_vertices_s(raw.primitives@.take(i as int)),
            indices@ == prims_indices_s(raw.primitives@.take(i as int)),
        decreases n_prims - i,
    {
        let ghost prims = raw.primitives@;
        let p: &RawPrimitive = &raw.primitives[i];
        let pos: &Vec<Vec3> = match &p.positions {
            Some(pos) => pos,
            None => {
                return Err(ImportError::MissingPositions);
            },
        };
        let n_pos: usize = pos.len();
        let ghost base = vertices@;
        let mut v: usize = 0;
        while v < n_pos
            invariant
                p.positions is Some,
                pos@ == p.positions->0@,
                n_pos == pos@.len(),
                p == prims[i as int],
                0 <= i < prims.len(),
                v <= n_pos,
                vertices@ == base + Seq::new(v as nat, |j: int| prim_vertex_s(*p, j)),
            decreases n_pos - v,
        {
            let normal: Vec3 = match &p.normals {
                Some(ns) => if v < ns.len() {
                    ns[v]
                } else {
                    Vec3 { x: 0, y: 0, z: 0 }
                },
                None => Vec3 { x: 0, y: 0, z: 0 },
            };
            let uv: Vec2 = match &p.uvs {
                Some(us) => if v < us.len() {
                    us[v]
                } else {
                    Vec2 { x: 0, y: 0 }
                },
                None => Vec2 { x: 0, y: 0 },
            };
            let weights: u32 = match &p.weights {
                Some(ws) => if v < ws.len() {
                    let w = ws[v];
                    pack4(w.0, w.1, w.2, w.3)
                } else {
                    0
                },
                None => 0,
            };
            let joints: u32 = match &p.joints {
                Some(js) => if v < js.len() {
                    let j = js[v];
                    pack4((j.0 % 256) as u8, (j.1 % 256) as u8, (j.2 % 256) as u8, (j.3 % 256) as u8)
                } else {
                    0
                },
                None => 0,
            };
            vertices.push(AnimatedVertex { position: pos[v], normal, uv, weights, joints });
            proof {
                assert(Seq::new((v + 1) as nat, |j: int| prim_vertex_s(*p, j)) =~= Seq::new(
                    v as nat,
                    |j: int| prim_vertex_s(*p, j),
                ).push(prim_vertex_s(*p, v as int)));
            }
            v += 1;
        }
        if let Some(idx) = &p.indices {
            let n_idx: usize = idx.len();
            let ghost ibase = indices@;
            let mut j: usize = 0;
            while j < n_idx
                invariant
                    n_idx == idx@.len(),
                    j <= n_idx,
                    indices@ == ibase + idx@.take(j as int),
                decreases n_idx - j,
            {
                indices.push(idx[j]);
                proof {
                    assert(idx@.take(j + 1) =~= idx@.take(j as int).push(idx@[j as int]));
                }
                j += 1;
            }
            proof {
                assert(idx@.take(n_idx as int) =~= idx@);
            }
        }
        proof {
            assert(prims.take(i + 1).drop_last() =~= prims.take(i as int));
            assert(prims.take(i + 1).last() == prims[i as int]);
            assert(Seq::new(n_pos as nat, |j: int| prim_vertex_s(*p, j)) =~= prim_vertices_s(
                prims[i as int],
            ));
            assert(vertices@ =~= prims_vertices_s(prims.take(i + 1)));
            assert(indices@ =~= prims_indices_s(prims.take(i + 1)));
        }
        i += 1;
    }
    proof {
        assert(raw.primitives@.take(n_prims as int) =~= raw.primitives@);
    }
    Ok(Mesh { vertices, indices })
}

fn build_meshes(raw: &Vec<RawMesh>) -> (res: Result<Vec<Mesh>, ImportError>)
    ensures
        match res {
            Ok(ms) => {
                &&& meshes_error_s(raw@, 0) is None
                &&& ms@.len() == raw@.len()
                &&& forall|m: int| 0 <= m < raw@.len() ==> mesh_matches(#[trigger] ms@[m], raw@[m])
            },
            Err(e) => meshes_error_s(raw@, 0) == Some(e),
        },
{
    let mut meshes: Vec<Mesh> = Vec::new();
    let n: usize = raw.len();
    let mut i: usize = 0;
    while i < n
        invariant
            n == raw@.len(),
            i <= n,
            meshes_error_s(raw@, 0) == meshes_error_s(raw@, i as int),
            meshes@.len() == i,
            forall|m: int| 0 <= m < i ==> mesh_matches(#[trigger] meshes@[m], raw@[m]),
        decreases n - i,
    {
        match build_mesh(&raw[i]) {
            Ok(m) => {
                meshes.push(m);
            },
            Err(e) => {
                return Err(e);
            },
        }
        i += 1;
    }
    Ok(meshes)
}

// ---------------------------------------------------------------------------
// Animations.

/// A built track holds exactly the channel's target, timestamps and values,
/// tagged by the channel's property kind.
pub open spec fn track_matches(t: Track, c: RawChannel) -> bool {
    &&& t.target == c.target
    &&& c.timestamps is Standard
    &&& t.timestamps@ == c.timestamps->0@
    &&& match t.keyframes {
        Keyframes::Rotations(a) => c.outputs matches Some(RawOutputs::Rotations(b)) && a@ == b@,
        Keyframes::Translations(a) => c.outputs matches Some(RawOutputs::Translations(b)) && a@
            == b@,
        Keyframes::Other => c.outputs matches Some(RawOutputs::Other),
    }
}

/// The length of a clip: the largest timestamp over all its channels, zero
/// for a clip without channels. On validated channels the timestamps never
/// decrease, so each channel's largest timestamp is its last.
pub open spec fn clip_length_s(cs: Seq<RawChannel>) -> i64
    decreases cs.len(),
{
    if cs.len() == 0 {
        0
    } else {
        let rest = clip_length_s(cs.drop_last());
        let ts = cs.last().timestamps->0@;
        if ts[ts.len() - 1] > rest {
            ts[ts.len() - 1]
        } else {
            rest
        }
    }
}

/// A built clip holds the raw animation's name, its channels one to one as
/// tracks, and the largest timestamp as its length.
pub open spec fn clip_matches(a: Animation, raw: RawAnimation) -> bool {
    &&& a.name == raw.name
    &&& a.length == clip_length_s(raw.channels@)
    &&& a.tracks@.len() == raw.channels@.len()
    &&& forall|t: int|
        0 <= t < raw.channels@.len() ==> track_matches(#[trigger] a.tracks@[t], raw.channels@[t])
}

fn build_clip(raw: &RawAnimation, n_nodes: usize) -> (res: Result<Animation, ImportError>)
    ensures
        match res {
            Ok(a) => channels_error_s(raw.channels@, n_nodes as int, 0) is None && clip_matches(
                a,
                *raw,
            ),
            Err(e) => channels_error_s(raw.channels@, n_nodes as int, 0) == Some(e),
        },
{
    let mut tracks: Vec<Track> = Vec::new();
    let mut length: i64 = 0;
    let n: usize = raw.channels.len();
    let mut i: usize = 0;
    while i < n
        invariant
            n == raw.channels@.len(),
            i <= n,
            channels_error_s(raw.channels@, n_nodes as int, 0) == channels_error_s(
                raw.channels@,
                n_nodes as int,
                i as int,
            ),
            tracks@.len() == i,
            forall|t: int|
                0 <= t < i ==> track_matches(#[trigger] tracks@[t], raw.channels@[t]),
            length == clip_length_s(raw.channels@.take(i as int)),
        decreases n - i,
    {
        let c: &RawChannel = &raw.channels[i];
        let ts: &Vec<i64> = match &c.timestamps {
            RawTimestamps::Standard(v) => v,
            RawTimestamps::Unsupported => {
                return Err(ImportError::UnsupportedAccessorEncoding);
            },
        };
        let outs: &RawOutputs = match &c.outputs {
            Some(o) => o,
            None => {
                return Err(ImportError::MissingChannelOutput);
            },
        };
        if ts.len() == 0 {
            return Err(ImportError::MalformedDocument);
        }
        if !check_non_decreasing(ts) {
            return Err(ImportError::MalformedDocument);
        }
        if c.target >= n_nodes {
            return Err(ImportError::MalformedDocument);
        }
        let keyframes: Keyframes = match outs {
            RawOutputs::Rotations(qs) => {
                if qs.len() != ts.len() {
                    return Err(ImportError::MalformedDocument);
                }
                Keyframes::Rotations(copy_vec(qs))
            },
            RawOutputs::Translations(vs) => {
                if vs.len() != ts.len() {
                    return Err(ImportError::MalformedDocument);
                }
                Keyframes::Translations(copy_vec(vs))
            },
            RawOutputs::Other => Keyframes::Other,
        };
        let m: i64 = ts[ts.len() - 1];
        if m > length {
            length = m;
        }
        tracks.push(Track { keyframes, target: c.target, timestamps: copy_vec(ts) });
        proof {
            assert(raw.channels@.take(i + 1).drop_last() =~= raw.channels@.take(i as int));
            assert(raw.channels@.take(i + 1).last() == raw.channels@[i as int]);
        }
        i += 1;
    }
    proof {
        assert(raw.channels@.take(n as int) =~= raw.channels@);
    }
    Ok(Animation { name: raw.name.clone(), length, tracks })
}

fn build_animations(raw: &Vec<RawAnimation>, n_nodes: usize) -> (res: Result<
    Vec<Animation>,
    ImportError,
>)
    ensures
        match res {
            Ok(anims) => {
                &&& anims_error_s(raw@, n_nodes as int, 0) is None
                &&& anims@.len() == raw@.len()
                &&& forall|a: int|
                    0 <= a < raw@.len() ==> clip_matches(#[trigger] anims@[a], raw@[a])
            },
            Err(e) => anims_error_s(raw@, n_nodes as int, 0) == Some(e),
        },
{
    let mut anims: Vec<Animation> = Vec::new();
    let n: usize = raw.len();
    let mut i: usize = 0;
    while i < n
        invariant
            n == raw@.len(),
            i <= n,
            anims_error_s(raw@, n_nodes as int, 0) == anims_error_s(raw@, n_nodes as int, i as int),
            anims@.len() == i,
            forall|a: int| 0 <= a < i ==> clip_matches(#[trigger] anims@[a], raw@[a]),
        decreases n - i,
    {
        match build_clip(&raw[i], n_nodes) {
            Ok(a) => {
                anims.push(a);
            },
            Err(e) => {
                return Err(e);
            },
        }
        i += 1;
    }
    Ok(anims)
}

// ---------------------------------------------------------------------------
// The node hierarchy.

/// Distinct entries below `n` cannot number more than `n`.
proof fn lemma_no_dup_le_n(s: Seq<usize>, n: int)
    requires
        s.no_duplicates(),
        forall|j: int| 0 <= j < s.len() ==> (#[trigger] s[j] as int) < n,
        n >= 0,
    ensures
        s.len() <= n,
{
    let ints = s.map_values(|u: usize| u as int);
    assert(ints.no_duplicates()) by {
        assert forall|a: int, b: int|
            0 <= a < ints.len() && 0 <= b < ints.len() && a != b implies ints[a] != ints[b] by {
            assert(s[a] != s[b]);
        }
    }
    ints.unique_seq_to_set();
    lemma_int_range(0, n);
    assert(ints.to_set().subset_of(set_int_range(0, n))) by {
        assert forall|v: int| #[trigger] ints.to_set().contains(v) implies set_int_range(
            0,
            n,
        ).contains(v) by {
            let j = choose|j: int| 0 <= j < ints.len() && ints[j] == v;
            assert(s[j] as int == v);
        }
    }
    lemma_len_subset(ints.to_set(), set_int_range(0, n));
}

/// A list with distinct entries holding every index below `n` has at least
/// `n` entries.
proof fn lemma_contains_all_ge_n(s: Seq<usize>, n: int)
    requires
        s.no_duplicates(),
        forall|i: int| 0 <= i < n ==> s.contains((#[trigger] (i as usize))),
        0 <= n <= usize::MAX,
    ensures
        s.len() >= n,
{
    let ints = s.map_values(|u: usize| u as int);
    assert(ints.no_duplicates()) by {
        assert forall|a: int, b: int|
            0 <= a < ints.len() && 0 <= b < ints.len() && a != b implies ints[a] != ints[b] by {
            assert(s[a] != s[b]);
        }
    }
    ints.unique_seq_to_set();
    lemma_int_range(0, n);
    assert(set_int_range(0, n).subset_of(ints.to_set())) by {
        assert forall|v: int| #[trigger] set_int_range(0, n).contains(v) implies ints.to_set()
            .contains(v) by {
            assert(s.contains(v as usize));
            let j = choose|j: int| 0 <= j < s.len() && s[j] == v as usize;
            assert(ints[j] == v);
        }
    }
    lemma_len_subset(set_int_range(0, n), ints.to_set());
}

/// The parent map a child-list forest determines is unique.
proof fn lemma_parent_unique(nodes: Seq<RawNode>, p1: Seq<Option<usize>>, p2: Seq<Option<usize>>)
    requires
        raw_parent_consistent(nodes, p1),
        raw_parent_consistent(nodes, p2),
        nodes.len() <= usize::MAX,
    ensures
        p1 =~= p2,
{
    assert forall|c: int| 0 <= c < nodes.len() implies p1[c] == p2[c] by {
        if p1[c] is Some {
            let q = (p1[c]->0) as int;
            assert(nodes[q].children@.contains(c as usize));
            let k = choose|k: int|
                0 <= k < nodes[q].children@.len() && nodes[q].children@[k] == c as usize;
            assert(p2[(nodes[q].children@[k]) as int] == Some(q as usize));
            assert(p2[c] == Some(q as usize));
        }
        if p2[c] is Some {
            let q = (p2[c]->0) as int;
            assert(nodes[q].children@.contains(c as usize));
            let k = choose|k: int|
                0 <= k < nodes[q].children@.len() && nodes[q].children@[k] == c as usize;
            assert(p1[(nodes[q].children@[k]) as int] == Some(q as usize));
            assert(p1[c] == Some(q as usize));
        }
    }
}

/// If every unplaced node waits on an unplaced parent, a parents-first order
/// can only hold placed nodes.
proof fn lemma_stalled_blocks_order(
    n: int,
    parent: Seq<Option<usize>>,
    placed: Seq<bool>,
    ord: Seq<usize>,
    j: int,
)
    requires
        parent.len() == n,
        placed.len() == n,
        forall|i: int|
            0 <= i < n && !placed[i] ==> (#[trigger] parent[i]) is Some && ((parent[i]->0) as int)
                < n && !placed[(parent[i]->0) as int],
        order_ok(n, parent, ord),
        0 <= j < ord.len(),
    ensures
        placed[ord[j] as int],
    decreases j,
{
    let i = ord[j] as int;
    if !placed[i] {
        let p = parent[i]->0;
        let j2 = choose|j2: int| 0 <= j2 < j && #[trigger] ord[j2] == p;
        lemma_stalled_blocks_order(n, parent, placed, ord, j2);
    }
}

/// Derive the parent map, a parents-first traversal order, and the parentless
/// set from the child lists; fail exactly when the child lists do not form a
/// forest.
fn build_hierarchy(nodes: &Vec<RawNode>) -> (res: Result<
    (Vec<Option<usize>>, Vec<usize>, Vec<usize>),
    ImportError,
>)
    ensures
        match res {
            Ok(r) => {
                &&& hierarchy_ok(nodes@)
                &&& raw_parent_consistent(nodes@, r.0@)
                &&& order_ok(nodes@.len() as int, r.0@, r.1@)
                &&& roots_ok(nodes@.len() as int, r.0@, r.2@)
            },
            Err(e) => e == ImportError::MalformedDocument && !hierarchy_ok(nodes@),
        },
{
    let n: usize = nodes.len();
    // Child indices must point into the table.
    let mut i: usize = 0;
    while i < n
        invariant
            n == nodes@.len(),
            i <= n,
            forall|i2: int, k: int|
                0 <= i2 < i && 0 <= k < nodes@[i2].children@.len() ==> (
                #[trigger] nodes@[i2].children@[k] as int) < n,
        decreases n - i,
    {
        let n_ch: usize = nodes[i].children.len();
        let mut k: usize = 0;
        while k < n_ch
            invariant
                n == nodes@.len(),
                i < n,
                n_ch == nodes@[i as int].children@.len(),
                k <= n_ch,
                forall|k2: int|
                    0 <= k2 < k ==> (#[trigger] nodes@[i as int].children@[k2] as int) < n,
            decreases n_ch - k,
        {
            if nodes[i].children[k] >= n {
                proof {
                    assert(!raw_children_valid(nodes@));
                }
                return Err(ImportError::MalformedDocument);
            }
            k += 1;
        }
        i += 1;
    }
    proof {
        assert(raw_children_valid(nodes@));
    }
    // Invert the child lists into a parent map; two parents claiming one
    // child is a malformed document.
    let mut parent: Vec<Option<usize>> = Vec::new();
    let mut i: usize = 0;
    while i < n
        invariant
            i <= n,
            parent@.len() == i,
            forall|c: int| 0 <= c < i ==> parent@[c] is None,
        decreases n - i,
    {
        parent.push(None);
        i += 1;
    }
    let mut p: usize = 0;
    while p < n
        invariant
            n == nodes@.len(),
            raw_children_valid(nodes@),
            p <= n,
            parent@.len() == n,
            forall|c: int|
                0 <= c < n && #[trigger] parent@[c] is Some ==> ((parent@[c]->0) as int) < n
                    && nodes@[(parent@[c]->0) as int].children@.contains(c as usize),
            forall|p2: int, k2: int|
                0 <= p2 < p && 0 <= k2 < nodes@[p2].children@.len() ==> parent@[(
                #[trigger] nodes@[p2].children@[k2]) as int] == Some(p2 as usize),
        decreases n - p,
    {
        let n_ch: usize = nodes[p].children.len();
        let mut k: usize = 0;
        while k < n_ch
            invariant
                n == nodes@.len(),
                raw_children_valid(nodes@),
                p < n,
                n_ch == nodes@[p as int].children@.len(),
                k <= n_ch,
                parent@.len() == n,
                forall|c: int|
                    0 <= c < n && #[trigger] parent@[c] is Some ==> ((parent@[c]->0) as int) < n
                        && nodes@[(parent@[c]->0) as int].children@.contains(c as usize),
                forall|p2: int, k2: int|
                    0 <= p2 < p && 0 <= k2 < nodes@[p2].children@.len() ==> parent@[(
                    #[trigger] nodes@[p2].children@[k2]) as int] == Some(p2 as usize),
                forall|k2: int|
                    0 <= k2 < k ==> parent@[(#[trigger] nodes@[p as int].children@[k2]) as int]
                        == Some(p as usize),
            decreases n_ch - k,
        {
            let c: usize = nodes[p].children[k];
            match parent[c] {
                None => {
                    parent[c] = Some(p);
                    proof {
                        assert(nodes@[p as int].children@.contains(c as usize));
                    }
                },
                Some(q) => {
                    if q != p {
                        proof {
                            if hierarchy_ok(nodes@) {
                                let (pr, ord) = choose|
                                    pr: Seq<Option<usize>>,
                                    ord: Seq<usize>,
                                |
                                    raw_parent_consistent(nodes@, pr) && order_ok(
                                        nodes@.len() as int,
                                        pr,
                                        ord,
                                    );
                                assert(pr[c as int] == Some(p as usize));
                                let k2 = choose|k2: int|
                                    0 <= k2 < nodes@[q as int].children@.len()
                                        && nodes@[q as int].children@[k2] == c as usize;
                                assert(pr[c as int] == Some(q as usize));
                            }
                        }
                        return Err(ImportError::MalformedDocument);
                    }
                },
            }
            k += 1;
        }
        p += 1;
    }
    proof {
        assert(raw_parent_consistent(nodes@, parent@));
    }
    // The parentless set, in index order.
    let mut roots: Vec<usize> = Vec::new();
    let mut i: usize = 0;
    while i < n
        invariant
            n == nodes@.len(),
            parent@.len() == n,
            i <= n,
            roots@.no_duplicates(),
            forall|j: int|
                0 <= j < roots@.len() ==> ((#[trigger] roots@[j]) as int) < i && parent@[roots@[j]
                    as int] is None,
            forall|i2: int| 0 <= i2 < i && #[trigger] parent@[i2] is None ==> roots@.contains(
                i2 as usize,
            ),
        decreases n - i,
    {
        if parent[i].is_none() {
            proof {
                assert(!roots@.contains(i as usize));
            }
            let ghost prev_roots = roots@;
            roots.push(i);
            proof {
                assert forall|a: int, b: int|
                    0 <= a < roots@.len() && 0 <= b < roots@.len() && a != b implies roots@[a]
                    != roots@[b] by {
                    if a < prev_roots.len() && b < prev_roots.len() {
                        assert(prev_roots[a] != prev_roots[b]);
                    }
                }
                assert forall|i2: int|
                    0 <= i2 < i + 1 && #[trigger] parent@[i2] is None implies roots@.contains(
                    i2 as usize,
                ) by {
                    if i2 < i {
                        let j = choose|j: int|
                            0 <= j < prev_roots.len() && prev_roots[j] == i2 as usize;
                        assert(roots@[j] == i2 as usize);
                    } else {
                        assert(roots@[roots@.len() - 1] == i as usize);
                    }
                }
            }
        }
        i += 1;
    }
    // Place parents before children, a sweep at a time; a sweep that places
    // nothing means a cycle.
    let mut placed: Vec<bool> = Vec::new();
    let mut i: usize = 0;
    while i < n
        invariant
            i <= n,
            placed@.len() == i,
            forall|c: int| 0 <= c < i ==> !(#[trigger] placed@[c]),
        decreases n - i,
    {
        placed.push(false);
        i += 1;
    }
    let mut order: Vec<usize> = Vec::new();
    while order.len() < n
        invariant
            n == nodes@.len(),
            raw_parent_consistent(nodes@, parent@),
            parent@.len() == n,
            placed@.len() == n,
            order@.no_duplicates(),
            order@.len() <= n,
            forall|j: int| 0 <= j < order@.len() ==> ((#[trigger] order@[j]) as int) < n,
            forall|c: int|
                0 <= c < n ==> ((#[trigger] placed@[c]) <==> order@.contains(c as usize)),
            forall|j: int|
                0 <= j < order@.len() && parent@[#[trigger] order@[j] as int] is Some ==> exists|
                    j2: int,
                |
                    0 <= j2 < j && #[trigger] order@[j2] == parent@[order@[j] as int]->0,
        decreases n - order@.len(),
    {
        let before: usize = order.len();
        let mut i: usize = 0;
        while i < n
            invariant
                n == nodes@.len(),
                raw_parent_consistent(nodes@, parent@),
                parent@.len() == n,
                placed@.len() == n,
                i <= n,
                before <= order@.len(),
                order@.no_duplicates(),
                order@.len() <= n,
                forall|j: int| 0 <= j < order@.len() ==> ((#[trigger] order@[j]) as int) < n,
                forall|c: int|
                    0 <= c < n ==> ((#[trigger] placed@[c]) <==> order@.contains(c as usize)),
                forall|j: int|
                    0 <= j < order@.len() && parent@[#[trigger] order@[j] as int] is Some ==> exists|
                        j2: int,
                    |
                        0 <= j2 < j && #[trigger] order@[j2] == parent@[order@[j] as int]->0,
                order@.len() == before ==> forall|i2: int|
                    0 <= i2 < i && !(#[trigger] placed@[i2]) ==> parent@[i2] is Some && !placed@[(
                    parent@[i2]->0) as int],
            decreases n - i,
        {
            if !placed[i] {
                let can: bool = match parent[i] {
                    None => true,
                    Some(pp) => placed[pp],
                };
                if can {
                    let ghost prev_placed = placed@;
                    let ghost prev_order = order@;
                    placed[i] = true;
                    order.push(i);
                    proof {
                        assert(!prev_order.contains(i as usize));
                        assert forall|a: int, b: int|
                            0 <= a < order@.len() && 0 <= b < order@.len() && a != b implies order@[a]
                            != order@[b] by {
                            if a < prev_order.len() && b < prev_order.len() {
                                assert(prev_order[a] != prev_order[b]);
                            }
                        }
                        lemma_no_dup_le_n(order@, n as int);
                        assert forall|c: int|
                            0 <= c < n implies ((#[trigger] placed@[c]) <==> order@.contains(
                            c as usize,
                        )) by {
                            if c == i {
                                assert(order@[order@.len() - 1] == i as usize);
                            } else {
                                if prev_placed[c] {
                                    let j = choose|j: int|
                                        0 <= j < prev_order.len() && prev_order[j] == c as usize;
                                    assert(order@[j] == c as usize);
                                }
                                if order@.contains(c as usize) {
                                    let j = choose|j: int|
                                        0 <= j < order@.len() && order@[j] == c as usize;
                                    assert(j < prev_order.len());
                                    assert(prev_order[j] == c as usize);
                                    assert(prev_order.contains(c as usize));
                                }
                            }
                        }
                        assert forall|j: int|
                            0 <= j < order@.len() && parent@[#[trigger] order@[j] as int]
                                is Some implies exists|j2: int|
                            0 <= j2 < j && #[trigger] order@[j2] == parent@[order@[j] as int]->0 by {
                            if j < prev_order.len() {
                                let j2 = choose|j2: int|
                                    0 <= j2 < j && #[trigger] prev_order[j2] == parent@[prev_order[j] as int]->0;
                                assert(order@[j2] == parent@[order@[j] as int]->0);
                            } else {
                                let pp = parent@[i as int]->0;
                                assert(prev_placed[pp as int]);
                                assert(prev_order.contains(pp));
                                let j2 = choose|j2: int|
                                    0 <= j2 < prev_order.len() && prev_order[j2] == pp;
                                assert(order@[j2] == pp);
                            }
                        }
                    }
                }
            }
            i += 1;
        }
        if order.len() == before {
            proof {
                if hierarchy_ok(nodes@) {
                    let (pr, ord) = choose|pr: Seq<Option<usize>>, ord: Seq<usize>|
                        raw_parent_consistent(nodes@, pr) && order_ok(nodes@.len() as int, pr, ord);
                    lemma_parent_unique(nodes@, pr, parent@);
                    assert(order_ok(n as int, parent@, ord));
                    assert(exists|i0: int| 0 <= i0 < n && !placed@[i0]) by {
                        if forall|i0: int| 0 <= i0 < n ==> #[trigger] placed@[i0] {
                            assert forall|i0: int| 0 <= i0 < n implies order@.contains(
                                #[trigger] (i0 as usize),
                            ) by {
                                assert(placed@[i0]);
                            }
                            lemma_contains_all_ge_n(order@, n as int);
                        }
                    }
                    let i0 = choose|i0: int| 0 <= i0 < n && !placed@[i0];
                    crate::scene::lemma_order_covers(ord, n as int, i0);
                    let j = choose|j: int| 0 <= j < n && #[trigger] ord[j] as int == i0;
                    lemma_stalled_blocks_order(n as int, parent@, placed@, ord, j);
                }
            }
            return Err(ImportError::MalformedDocument);
        }
    }
    proof {
        assert(order_ok(n as int, parent@, order@));
        assert(roots_ok(n as int, parent@, roots@));
        assert(raw_parent_consistent(nodes@, parent@) && order_ok(n as int, parent@, order@));
        assert(hierarchy_ok(nodes@));
    }
    Ok((parent, order, roots))
}

// ---------------------------------------------------------------------------
// Nodes, the skin, and the import itself.

/// A built node holds the raw node's name, local transform and child list;
/// its kind follows the raw mesh reference, and its world transform starts
/// out as its composed local transform.
pub open spec fn node_matches(n: Node, r: RawNode) -> bool {
    &&& n.name == r.name
    &&& n.translation == r.translation
    &&& n.rotation == r.rotation
    &&& n.scale == r.scale
    &&& n.children@ == r.children@
    &&& n.node_type == match r.mesh {
        Some(m) => NodeType::Mesh { mesh: m },
        None => NodeType::Generic,
    }
    &&& n.world_transform == local_mat_of(n)
}

/// Node `c` is listed as some node's child.
pub open spec fn has_parent_in(nodes: Seq<RawNode>, c: int) -> bool {
    exists|p: int, k: int|
        0 <= p < nodes.len() && 0 <= k < nodes[p].children@.len() && (
        #[trigger] nodes[p].children@[k]) as int == c
}

/// The built skin: the first raw skin's joints and inverse bind matrices
/// (identity matrices where the document has none), or empty without a skin.
pub open spec fn skin_matches(joints: Seq<usize>, ibms: Seq<Mat4>, skins: Seq<RawSkin>) -> bool {
    if skins.len() == 0 {
        joints.len() == 0 && ibms.len() == 0
    } else {
        &&& joints == skins[0].joints@
        &&& ibms.len() == joints.len()
        &&& (skins[0].inverse_bind_matrices matches Some(ms) ==> ibms == ms@)
        &&& (skins[0].inverse_bind_matrices is None ==> forall|k: int|
            0 <= k < ibms.len() ==> #[trigger] ibms[k] == mat_identity())
    }
}

fn build_nodes(raw: &Vec<RawNode>) -> (nodes: Vec<Node>)
    ensures
        nodes@.len() == raw@.len(),
        forall|i: int| 0 <= i < raw@.len() ==> node_matches(#[trigger] nodes@[i], raw@[i]),
{
    let mut nodes: Vec<Node> = Vec::new();
    let n: usize = raw.len();
    let mut i: usize = 0;
    while i < n
        invariant
            n == raw@.len(),
            i <= n,
            nodes@.len() == i,
            forall|i2: int| 0 <= i2 < i ==> node_matches(#[trigger] nodes@[i2], raw@[i2]),
        decreases n - i,
    {
        let r: &RawNode = &raw[i];
        let world: Mat4 = trs_mat(&r.translation, &r.rotation, &r.scale);
        nodes.push(
            Node {
                name: r.name.clone(),
                node_type: match r.mesh {
                    Some(m) => NodeType::Mesh { mesh: m },
                    None => NodeType::Generic,
                },
                translation: r.translation,
                rotation: r.rotation,
                scale: r.scale,
                world_transform: world,
                children: copy_vec(&r.children),
            },
        );
        i += 1;
    }
    nodes
}

fn check_mesh_refs(nodes: &Vec<RawNode>, n_meshes: usize) -> (r: bool)
    ensures
        r == mesh_refs_ok(nodes@, n_meshes as int),
{
    let n: usize = nodes.len();
    let mut i: usize = 0;
    while i < n
        invariant
            n == nodes@.len(),
            i <= n,
            forall|i2: int|
                0 <= i2 < i ==> match (#[trigger] nodes@[i2]).mesh {
                    Some(m) => (m as int) < n_meshes,
                    None => true,
                },
        decreases n - i,
    {
        if let Some(m) = nodes[i].mesh {
            if m >= n_meshes {
                return false;
            }
        }
        i += 1;
    }
    true
}

fn build_skin(skins: &Vec<RawSkin>, n_nodes: usize) -> (res: Result<
    (Vec<usize>, Vec<Mat4>),
    ImportError,
>)
    ensures
        match res {
            Ok(r) => skin_ok(skins@, n_nodes as int) && skin_matches(r.0@, r.1@, skins@),
            Err(e) => e == ImportError::MalformedDocument && !skin_ok(skins@, n_nodes as int),
        },
{
    if skins.len() == 0 {
        return Ok((Vec::new(), Vec::new()));
    }
    let s: &RawSkin = &skins[0];
    let n_joints: usize = s.joints.len();
    let mut k: usize = 0;
    while k < n_joints
        invariant
            n_joints == s.joints@.len(),
            s == skins@[0],
            skins@.len() > 0,
            k <= n_joints,
            forall|k2: int| 0 <= k2 < k ==> ((#[trigger] s.joints@[k2]) as int) < n_nodes,
        decreases n_joints - k,
    {
        if s.joints[k] >= n_nodes {
            return Err(ImportError::MalformedDocument);
        }
        k += 1;
    }
    let ibms: Vec<Mat4> = match &s.inverse_bind_matrices {
        Some(ms) => {
            if ms.len() != n_joints {
                return Err(ImportError::MalformedDocument);
            }
            copy_vec(ms)
        },
        None => {
            let mut ms: Vec<Mat4> = Vec::new();
            let mut k: usize = 0;
            while k < n_joints
                invariant
                    k <= n_joints,
                    ms@.len() == k,
                    forall|k2: int| 0 <= k2 < k ==> #[trigger] ms@[k2] == mat_identity(),
                decreases n_joints - k,
            {
                ms.push(mat_identity_ex());
                k += 1;
            }
            ms
        },
    };
    Ok((copy_vec(&s.joints), ibms))
}

/// A validated channel is a well-formed track source.
proof fn lemma_channels_error_none(cs: Seq<RawChannel>, n_nodes: int, j: int, i: int)
    requires
        channels_error_s(cs, n_nodes, j) is None,
        0 <= j <= i < cs.len(),
    ensures
        channel_error_s(cs[i], n_nodes) is None,
    decreases i - j,
{
    if j < i {
        lemma_channels_error_none(cs, n_nodes, j + 1, i);
    }
}

/// Every clip of a validated document has only validated channels.
proof fn lemma_anims_error_none(anims: Seq<RawAnimation>, n_nodes: int, j: int, i: int)
    requires
        anims_error_s(anims, n_nodes, j) is None,
        0 <= j <= i < anims.len(),
    ensures
        channels_error_s(anims[i].channels@, n_nodes, 0) is None,
    decreases i - j,
{
    if j < i {
        lemma_anims_error_none(anims, n_nodes, j + 1, i);
    }
}

/// Everything the import promises of the object it builds for a document.
pub open spec fn obj_matches(o: AnimatedObject, doc: RawDocument) -> bool {
    &&& o.wf()
    &&& o.current_animation == 0
    &&& o.elapsed == 0
    &&& o.nodes@.len() == doc.nodes@.len()
    &&& forall|i: int|
        0 <= i < doc.nodes@.len() ==> node_matches(#[trigger] o.nodes@[i], doc.nodes@[i])
    &&& o.meshes@.len() == doc.meshes@.len()
    &&& forall|m: int|
        0 <= m < doc.meshes@.len() ==> mesh_matches(#[trigger] o.meshes@[m], doc.meshes@[m])
    &&& o.animations@.len() == doc.animations@.len()
    &&& forall|a: int|
        0 <= a < doc.animations@.len() ==> clip_matches(
            #[trigger] o.animations@[a],
            doc.animations@[a],
        )
    &&& skin_matches(o.joints@, o.inverse_bind_matrices@, doc.skins@)
    &&& forall|i: int|
        0 <= i < doc.nodes@.len() ==> (o.parentless_nodes@.contains((#[trigger] (i as usize)))
            <==> !has_parent_in(doc.nodes@, i))
}

/// Build an animated object from a decoded document. Succeeds exactly on
/// documents without defects; the error reports the first defect in scan
/// order (meshes, then animations, then the document structure), and no
/// partial object is ever returned.
pub fn import(doc: &RawDocument) -> (res: Result<AnimatedObject, ImportError>)
    ensures
        res is Ok <==> import_error_s(*doc) is None,
        res matches Err(e) ==> import_error_s(*doc) == Some(e),
        res matches Ok(o) ==> obj_matches(o, *doc),
{
    let n_nodes: usize = doc.nodes.len();
    let meshes: Vec<Mesh> = match build_meshes(&doc.meshes) {
        Ok(m) => m,
        Err(e) => {
            return Err(e);
        },
    };
    let animations: Vec<Animation> = match build_animations(&doc.animations, n_nodes) {
        Ok(a) => a,
        Err(e) => {
            return Err(e);
        },
    };
    if !check_mesh_refs(&doc.nodes, doc.meshes.len()) {
        return Err(ImportError::MalformedDocument);
    }
    let (parent, order, roots) = match build_hierarchy(&doc.nodes) {
        Ok(t) => t,
        Err(e) => {
            return Err(e);
        },
    };
    let (joints, inverse_bind_matrices) = match build_skin(&doc.skins, n_nodes) {
        Ok(t) => t,
        Err(e) => {
            return Err(e);
        },
    };
    let nodes: Vec<Node> = build_nodes(&doc.nodes);
    let obj = AnimatedObject {
        meshes,
        nodes,
        animations,
        current_animation: 0,
        elapsed: 0,
        joints,
        inverse_bind_matrices,
        parentless_nodes: roots,
        parent,
        order,
    };
    proof {
        let n = doc.nodes@.len() as int;
        // The hierarchy structure transfers from the raw nodes to the built
        // nodes, whose child lists are the same.
        assert forall|i: int, k: int|
            0 <= i < n && 0 <= k < obj.nodes@[i].children@.len() implies (
        #[trigger] obj.nodes@[i].children@[k] as int) < n by {
            assert(obj.nodes@[i].children@ == doc.nodes@[i].children@);
            assert((doc.nodes@[i].children@[k] as int) < n);
        }
        assert forall|p: int, k: int|
            0 <= p < n && 0 <= k < obj.nodes@[p].children@.len() implies obj.parent@[(
        #[trigger] obj.nodes@[p].children@[k]) as int] == Some(p as usize) by {
            assert(obj.nodes@[p].children@ == doc.nodes@[p].children@);
            assert(obj.parent@[(doc.nodes@[p].children@[k]) as int] == Some(p as usize));
        }
        assert forall|c: int|
            0 <= c < n && #[trigger] obj.parent@[c] is Some implies ((obj.parent@[c]->0) as int) < n
                && obj.nodes@[(obj.parent@[c]->0) as int].children@.contains(c as usize) by {
            let p = (obj.parent@[c]->0) as int;
            assert(doc.nodes@[p].children@.contains(c as usize));
            assert(obj.nodes@[p].children@ == doc.nodes@[p].children@);
        }
        assert(children_valid(obj.nodes@));
        assert(parent_consistent(obj.nodes@, obj.parent@));
        // Validated clips are well-formed.
        assert forall|a: int|
            0 <= a < obj.animations@.len() implies animation_wf(
            #[trigger] obj.animations@[a],
            n,
        ) by {
            lemma_anims_error_none(doc.animations@, n, 0, a);
            assert forall|t: int|
                0 <= t < obj.animations@[a].tracks@.len() implies track_wf(
                #[trigger] obj.animations@[a].tracks@[t],
            ) && (obj.animations@[a].tracks@[t].target as int) < n by {
                lemma_channels_error_none(doc.animations@[a].channels@, n, 0, t);
                assert(track_matches(obj.animations@[a].tracks@[t], doc.animations@[a].channels@[t]));
                assert(channel_error_s(doc.animations@[a].channels@[t], n) is None);
            }
        }
        // Mesh references transfer through the node-type mapping.
        assert forall|i: int|
            0 <= i < n implies match (#[trigger] obj.nodes@[i]).node_type {
            NodeType::Mesh { mesh } => (mesh as int) < obj.meshes@.len(),
            NodeType::Generic => true,
        } by {
            assert(node_matches(obj.nodes@[i], doc.nodes@[i]));
        }
        assert(obj.wf());
        // The parentless set is exactly the set of nodes no child list names.
        assert forall|i: int|
            0 <= i < n implies (obj.parentless_nodes@.contains((#[trigger] (i as usize)))
                <==> !has_parent_in(doc.nodes@, i)) by {
            if has_parent_in(doc.nodes@, i) {
                let (p, k) = choose|p: int, k: int|
                    0 <= p < doc.nodes@.len() && 0 <= k < doc.nodes@[p].children@.len() && (
                    #[trigger] doc.nodes@[p].children@[k]) as int == i;
                assert(obj.parent@[i] == Some(p as usize));
            }
            if obj.parent@[i] is Some {
                let p = (obj.parent@[i]->0) as int;
                assert(doc.nodes@[p].children@.contains(i as usize));
                let k = choose|k: int|
                    0 <= k < doc.nodes@[p].children@.len() && doc.nodes@[p].children@[k]
                        == i as usize;
                assert(has_parent_in(doc.nodes@, i));
            }
        }
    }
    Ok(obj)
}

} // verus!
