//! Runtime behavior: keyframe interpolation boundaries, looping, component
//! isolation, world-transform propagation and the joint palette.

use animations::fixed::{fx_add, fx_div, fx_lerp, fx_mul, fx_sub};
use animations::import;
use animations::math::{mat_identity_ex, mat_mul};
use animations::{
    Mat4, NodeType, Quat, RawAnimation, RawChannel, RawDocument, RawMesh, RawNode, RawOutputs,
    RawPrimitive, RawSkin, RawTimestamps, Vec3, FX_ONE,
};

const HALF: i64 = 32768;

fn v3(x: i64, y: i64, z: i64) -> Vec3 {
    Vec3 { x, y, z }
}

fn qid() -> Quat {
    Quat { x: 0, y: 0, z: 0, w: FX_ONE }
}

fn raw_node(mesh: Option<usize>, children: Vec<usize>) -> RawNode {
    RawNode {
        name: "node".to_string(),
        mesh,
        translation: v3(0, 0, 0),
        rotation: qid(),
        scale: v3(FX_ONE, FX_ONE, FX_ONE),
        children,
    }
}

fn clip_doc(nodes: Vec<RawNode>, channels: Vec<RawChannel>) -> RawDocument {
    RawDocument {
        meshes: vec![],
        nodes,
        animations: vec![RawAnimation { name: "clip".to_string(), channels }],
        skins: vec![],
    }
}

fn rotation_channel(target: usize, timestamps: Vec<i64>, values: Vec<Quat>) -> RawChannel {
    RawChannel {
        target,
        timestamps: RawTimestamps::Standard(timestamps),
        outputs: Some(RawOutputs::Rotations(values)),
    }
}

fn translation_channel(target: usize, timestamps: Vec<i64>, values: Vec<Vec3>) -> RawChannel {
    RawChannel {
        target,
        timestamps: RawTimestamps::Standard(timestamps),
        outputs: Some(RawOutputs::Translations(values)),
    }
}

fn q1() -> Quat {
    Quat { x: FX_ONE, y: 0, z: 0, w: 0 }
}

fn two_key_rotation_doc() -> RawDocument {
    clip_doc(
        vec![raw_node(None, vec![])],
        vec![rotation_channel(0, vec![0, FX_ONE], vec![qid(), q1()])],
    )
}

#[test]
fn rotation_track_at_time_zero_yields_the_first_keyframe_exactly() {
    let mut obj = import(&two_key_rotation_doc()).unwrap();
    obj.update(0);
    assert_eq!(obj.nodes[0].rotation, qid());
}

#[test]
fn rotation_track_at_the_midpoint_interpolates_halfway() {
    let mut obj = import(&two_key_rotation_doc()).unwrap();
    obj.update(HALF);
    assert_eq!(obj.elapsed, HALF);
    // Halfway between (0, 0, 0, 1) and (1, 0, 0, 0), component by component.
    assert_eq!(obj.nodes[0].rotation, Quat { x: HALF, y: 0, z: 0, w: HALF });
}

#[test]
fn rotation_track_at_the_last_timestamp_yields_the_last_keyframe_exactly() {
    let mut obj = import(&two_key_rotation_doc()).unwrap();
    obj.update(FX_ONE);
    assert_eq!(obj.elapsed, FX_ONE);
    assert_eq!(obj.nodes[0].rotation, q1());
}

#[test]
fn elapsed_resets_hard_to_zero_past_the_clip_length() {
    let doc = clip_doc(
        vec![raw_node(None, vec![])],
        vec![rotation_channel(0, vec![0, 2 * FX_ONE], vec![qid(), q1()])],
    );
    let mut obj = import(&doc).unwrap();
    obj.update(FX_ONE + HALF);
    assert_eq!(obj.elapsed, FX_ONE + HALF);
    // 1.5 + 1.0 = 2.5 seconds runs past the 2-second clip: hard reset,
    // not a wrap to 0.5.
    obj.update(FX_ONE);
    assert_eq!(obj.elapsed, 0);
}

#[test]
fn single_keyframe_track_always_yields_its_value() {
    let target = v3(5 * FX_ONE, -3 * FX_ONE, 7);
    let doc = clip_doc(
        vec![raw_node(None, vec![])],
        vec![translation_channel(0, vec![FX_ONE], vec![target])],
    );
    let mut obj = import(&doc).unwrap();
    obj.update(HALF);
    assert_eq!(obj.nodes[0].translation, target);
    obj.update(HALF);
    assert_eq!(obj.nodes[0].translation, target);
    obj.update(10 * FX_ONE);
    assert_eq!(obj.nodes[0].translation, target);
}

#[test]
fn before_the_first_timestamp_the_first_keyframe_holds() {
    let doc = clip_doc(
        vec![raw_node(None, vec![])],
        vec![translation_channel(
            0,
            vec![FX_ONE, 2 * FX_ONE],
            vec![v3(FX_ONE, 0, 0), v3(0, FX_ONE, 0)],
        )],
    );
    let mut obj = import(&doc).unwrap();
    obj.update(HALF);
    assert_eq!(obj.nodes[0].translation, v3(FX_ONE, 0, 0));
}

fn isolation_doc(rotation_first: bool) -> RawDocument {
    let mut node = raw_node(None, vec![]);
    node.scale = v3(3 * FX_ONE, FX_ONE, 2 * FX_ONE);
    let r = rotation_channel(0, vec![0], vec![Quat { x: 0, y: FX_ONE, z: 0, w: 0 }]);
    let t = translation_channel(0, vec![0], vec![v3(7 * FX_ONE, 8 * FX_ONE, 9 * FX_ONE)]);
    let channels = if rotation_first {
        vec![r, t]
    } else {
        vec![t, r]
    };
    clip_doc(vec![node], channels)
}

#[test]
fn rotation_and_translation_tracks_do_not_clobber_each_other() {
    for rotation_first in [true, false] {
        let mut obj = import(&isolation_doc(rotation_first)).unwrap();
        obj.update(0);
        let node = &obj.nodes[0];
        assert_eq!(node.rotation, Quat { x: 0, y: FX_ONE, z: 0, w: 0 });
        assert_eq!(node.translation, v3(7 * FX_ONE, 8 * FX_ONE, 9 * FX_ONE));
        assert_eq!(node.scale, v3(3 * FX_ONE, FX_ONE, 2 * FX_ONE));
    }
}

#[test]
fn out_of_range_clip_selection_holds_the_pose() {
    let doc = clip_doc(
        vec![raw_node(None, vec![])],
        vec![translation_channel(
            0,
            vec![0, FX_ONE],
            vec![v3(FX_ONE, 0, 0), v3(3 * FX_ONE, 0, 0)],
        )],
    );
    let mut obj = import(&doc).unwrap();
    obj.update(HALF);
    assert_eq!(obj.elapsed, HALF);
    assert_eq!(obj.nodes[0].translation, v3(2 * FX_ONE, 0, 0));
    obj.current_animation = 9;
    obj.update(HALF);
    assert_eq!(obj.elapsed, HALF);
    assert_eq!(obj.nodes[0].translation, v3(2 * FX_ONE, 0, 0));
}

#[test]
fn world_transforms_compose_parent_times_local() {
    let mut parent = raw_node(None, vec![1]);
    parent.translation = v3(FX_ONE, 0, 0);
    let mut child = raw_node(None, vec![]);
    child.translation = v3(0, FX_ONE, 0);
    let doc = RawDocument {
        meshes: vec![],
        nodes: vec![parent, child],
        animations: vec![],
        skins: vec![],
    };
    let mut obj = import(&doc).unwrap();
    obj.update(0);
    assert_eq!(obj.nodes[0].world_transform.m03, FX_ONE);
    assert_eq!(obj.nodes[0].world_transform.m13, 0);
    assert_eq!(obj.nodes[1].world_transform.m03, FX_ONE);
    assert_eq!(obj.nodes[1].world_transform.m13, FX_ONE);
}

#[test]
fn deep_chains_accumulate_translations() {
    let mut nodes = vec![];
    for i in 0..4usize {
        let mut node = raw_node(None, if i + 1 < 4 { vec![i + 1] } else { vec![] });
        node.translation = v3(FX_ONE, 0, 0);
        nodes.push(node);
    }
    let doc = RawDocument { meshes: vec![], nodes, animations: vec![], skins: vec![] };
    let mut obj = import(&doc).unwrap();
    obj.update(0);
    assert_eq!(obj.nodes[3].world_transform.m03, 4 * FX_ONE);
}

#[test]
fn palette_has_one_matrix_per_joint_in_joint_order() {
    let mut nodes: Vec<RawNode> = (0..6).map(|_| raw_node(None, vec![])).collect();
    nodes[4].translation = v3(FX_ONE, 0, 0);
    let doc = RawDocument {
        meshes: vec![],
        nodes,
        animations: vec![],
        skins: vec![RawSkin { joints: vec![2, 4, 1], inverse_bind_matrices: None }],
    };
    let mut obj = import(&doc).unwrap();
    obj.update(0);
    let palette = obj.joint_matrices();
    // Exactly K = 3 matrices, whatever the node count.
    assert_eq!(palette.len(), 3);
    assert_eq!(palette[0].m03, 0);
    assert_eq!(palette[1].m03, FX_ONE);
    assert_eq!(palette[2].m03, 0);
}

#[test]
fn palette_multiplies_world_by_inverse_bind() {
    let mut node = raw_node(None, vec![]);
    node.translation = v3(FX_ONE, 0, 0);
    let inverse_bind = Mat4 { m03: -FX_ONE, ..mat_identity_ex() };
    let doc = RawDocument {
        meshes: vec![],
        nodes: vec![node],
        animations: vec![],
        skins: vec![RawSkin { joints: vec![0], inverse_bind_matrices: Some(vec![inverse_bind]) }],
    };
    let mut obj = import(&doc).unwrap();
    obj.update(0);
    let palette = obj.joint_matrices();
    // T(1,0,0) * T(-1,0,0) is the identity.
    assert_eq!(palette[0], mat_identity_ex());
}

#[test]
fn mesh_nodes_export_their_world_transform() {
    let prim = RawPrimitive {
        positions: Some(vec![v3(0, 0, 0)]),
        normals: None,
        uvs: None,
        weights: None,
        joints: None,
        indices: None,
    };
    let mut node = raw_node(Some(0), vec![]);
    node.translation = v3(2 * FX_ONE, 0, 0);
    let doc = RawDocument {
        meshes: vec![RawMesh { primitives: vec![prim] }],
        nodes: vec![raw_node(None, vec![1]), node],
        animations: vec![],
        skins: vec![],
    };
    let mut obj = import(&doc).unwrap();
    obj.update(0);
    let instances = obj.instance_transforms();
    assert_eq!(instances.len(), 1);
    assert_eq!(instances[0].0, 0);
    assert_eq!(instances[0].1.m03, 2 * FX_ONE);
    assert!(matches!(obj.nodes[1].node_type, NodeType::Mesh { mesh: 0 }));
}

#[test]
fn hand_edited_locals_propagate_on_demand() {
    let doc = RawDocument {
        meshes: vec![],
        nodes: vec![raw_node(None, vec![1]), raw_node(None, vec![])],
        animations: vec![],
        skins: vec![],
    };
    let mut obj = import(&doc).unwrap();
    obj.nodes[0].translation = v3(FX_ONE, 0, 0);
    obj.nodes[1].translation = v3(0, FX_ONE, 0);
    obj.update_world_matrices();
    assert_eq!(obj.nodes[1].world_transform.m03, FX_ONE);
    assert_eq!(obj.nodes[1].world_transform.m13, FX_ONE);
}

#[test]
fn fixed_point_operations_behave() {
    assert_eq!(fx_add(FX_ONE, FX_ONE), 2 * FX_ONE);
    assert_eq!(fx_add(i64::MAX, 1), i64::MAX);
    assert_eq!(fx_sub(i64::MIN, 1), i64::MIN);
    assert_eq!(fx_mul(3 * FX_ONE, 2 * FX_ONE), 6 * FX_ONE);
    assert_eq!(fx_mul(-3 * FX_ONE, 2 * FX_ONE), -6 * FX_ONE);
    // Rounding is toward zero on both sides.
    assert_eq!(fx_mul(-1, 1), 0);
    assert_eq!(fx_mul(1, 1), 0);
    assert_eq!(fx_div(FX_ONE, 2 * FX_ONE), HALF);
    assert_eq!(fx_div(-FX_ONE, 2 * FX_ONE), -HALF);
    assert_eq!(fx_lerp(0, 10 * FX_ONE, HALF), 5 * FX_ONE);
    assert_eq!(fx_lerp(0, 10 * FX_ONE, 0), 0);
    assert_eq!(fx_lerp(0, 10 * FX_ONE, FX_ONE), 10 * FX_ONE);
}

#[test]
fn multiplying_by_the_identity_changes_nothing() {
    let m = Mat4 {
        m00: 5,
        m01: -17,
        m02: 900,
        m03: 3 * FX_ONE,
        m10: 0,
        m11: FX_ONE,
        m12: 2,
        m13: -4,
        m20: 44,
        m21: -9,
        m22: HALF,
        m23: 123456,
        m30: 1,
        m31: 2,
        m32: 3,
        m33: FX_ONE,
    };
    let id = mat_identity_ex();
    assert_eq!(mat_mul(&id, &m), m);
    assert_eq!(mat_mul(&m, &id), m);
}

#[test]
fn update_applies_rotation_through_the_world_transform() {
    // A quarter turn about z: q = (0, 0, sin 45, cos 45); in fixed point use
    // the exact half-one components for a recognizable matrix shape.
    let q = Quat { x: 0, y: 0, z: 46341, w: 46341 };
    let doc = clip_doc(
        vec![raw_node(None, vec![])],
        vec![rotation_channel(0, vec![0], vec![q])],
    );
    let mut obj = import(&doc).unwrap();
    obj.update(0);
    let w = &obj.nodes[0].world_transform;
    // cos-like diagonal terms are near zero, off-diagonal near +/- one.
    assert!(w.m00.abs() < 200);
    assert!(w.m01 + FX_ONE < 200 && w.m01 + FX_ONE > -200);
    assert!(w.m10 - FX_ONE < 200 && w.m10 - FX_ONE > -200);
    assert_eq!(w.m33, FX_ONE);
}
