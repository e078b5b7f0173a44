//! Importer behavior: document validation, error reporting, vertex packing,
//! the parentless set, and the imported skin.

use animations::import;
use animations::mesh::{pack4, unpack4};
use animations::{
    ImportError, Mat4, Quat, RawAnimation, RawChannel, RawDocument, RawMesh, RawNode, RawOutputs,
    RawPrimitive, RawSkin, RawTimestamps, Vec3, FX_ONE,
};

fn v3(x: i64, y: i64, z: i64) -> Vec3 {
    Vec3 { x, y, z }
}

fn qid() -> Quat {
    Quat { x: 0, y: 0, z: 0, w: FX_ONE }
}

fn raw_node(mesh: Option<usize>, children: Vec<usize>) -> RawNode {
    RawNode {
        name: "node".to_string(),
        mesh,
        translation: v3(0, 0, 0),
        rotation: qid(),
        scale: v3(FX_ONE, FX_ONE, FX_ONE),
        children,
    }
}

fn node_doc(nodes: Vec<RawNode>) -> RawDocument {
    RawDocument { meshes: vec![], nodes, animations: vec![], skins: vec![] }
}

fn empty_prim() -> RawPrimitive {
    RawPrimitive {
        positions: Some(vec![v3(0, 0, 0)]),
        normals: None,
        uvs: None,
        weights: None,
        joints: None,
        indices: None,
    }
}

#[test]
fn five_node_tree_has_one_parentless_node() {
    let doc = node_doc(vec![
        raw_node(None, vec![1, 2]),
        raw_node(None, vec![3, 4]),
        raw_node(None, vec![]),
        raw_node(None, vec![]),
        raw_node(None, vec![]),
    ]);
    let obj = import(&doc).unwrap();
    assert_eq!(obj.parentless_nodes, vec![0]);
}

#[test]
fn two_disjoint_trees_have_two_parentless_nodes() {
    let doc = node_doc(vec![
        raw_node(None, vec![1]),
        raw_node(None, vec![]),
        raw_node(None, vec![3]),
        raw_node(None, vec![]),
    ]);
    let obj = import(&doc).unwrap();
    assert_eq!(obj.parentless_nodes, vec![0, 2]);
}

#[test]
fn child_order_within_lists_is_irrelevant_for_roots() {
    let a = node_doc(vec![raw_node(None, vec![1, 2]), raw_node(None, vec![]), raw_node(
        None,
        vec![],
    )]);
    let b = node_doc(vec![raw_node(None, vec![2, 1]), raw_node(None, vec![]), raw_node(
        None,
        vec![],
    )]);
    assert_eq!(import(&a).unwrap().parentless_nodes, import(&b).unwrap().parentless_nodes);
}

#[test]
fn cyclic_hierarchy_is_malformed() {
    let doc = node_doc(vec![raw_node(None, vec![1]), raw_node(None, vec![0])]);
    assert_eq!(import(&doc).unwrap_err(), ImportError::MalformedDocument);
}

#[test]
fn self_referential_node_is_malformed() {
    let doc = node_doc(vec![raw_node(None, vec![0])]);
    assert_eq!(import(&doc).unwrap_err(), ImportError::MalformedDocument);
}

#[test]
fn node_with_two_parents_is_malformed() {
    let doc = node_doc(vec![
        raw_node(None, vec![2]),
        raw_node(None, vec![2]),
        raw_node(None, vec![]),
    ]);
    assert_eq!(import(&doc).unwrap_err(), ImportError::MalformedDocument);
}

#[test]
fn dangling_child_index_is_malformed() {
    let doc = node_doc(vec![raw_node(None, vec![5])]);
    assert_eq!(import(&doc).unwrap_err(), ImportError::MalformedDocument);
}

#[test]
fn dangling_mesh_reference_is_malformed() {
    let doc = node_doc(vec![raw_node(Some(0), vec![])]);
    assert_eq!(import(&doc).unwrap_err(), ImportError::MalformedDocument);
}

#[test]
fn missing_positions_is_reported() {
    let doc = RawDocument {
        meshes: vec![RawMesh {
            primitives: vec![RawPrimitive {
                positions: None,
                normals: None,
                uvs: None,
                weights: None,
                joints: None,
                indices: None,
            }],
        }],
        nodes: vec![],
        animations: vec![],
        skins: vec![],
    };
    assert_eq!(import(&doc).unwrap_err(), ImportError::MissingPositions);
}

fn one_channel_doc(timestamps: RawTimestamps, outputs: Option<RawOutputs>) -> RawDocument {
    RawDocument {
        meshes: vec![],
        nodes: vec![raw_node(None, vec![])],
        animations: vec![RawAnimation {
            name: "clip".to_string(),
            channels: vec![RawChannel { target: 0, timestamps, outputs }],
        }],
        skins: vec![],
    }
}

#[test]
fn unsupported_timestamp_encoding_is_reported() {
    let doc = one_channel_doc(
        RawTimestamps::Unsupported,
        Some(RawOutputs::Rotations(vec![qid()])),
    );
    assert_eq!(import(&doc).unwrap_err(), ImportError::UnsupportedAccessorEncoding);
}

#[test]
fn output_less_channel_is_reported() {
    let doc = one_channel_doc(RawTimestamps::Standard(vec![0]), None);
    assert_eq!(import(&doc).unwrap_err(), ImportError::MissingChannelOutput);
}

#[test]
fn empty_timestamps_are_malformed() {
    let doc = one_channel_doc(
        RawTimestamps::Standard(vec![]),
        Some(RawOutputs::Rotations(vec![])),
    );
    assert_eq!(import(&doc).unwrap_err(), ImportError::MalformedDocument);
}

#[test]
fn decreasing_timestamps_are_malformed() {
    let doc = one_channel_doc(
        RawTimestamps::Standard(vec![FX_ONE, 0]),
        Some(RawOutputs::Rotations(vec![qid(), qid()])),
    );
    assert_eq!(import(&doc).unwrap_err(), ImportError::MalformedDocument);
}

#[test]
fn mismatched_value_count_is_malformed() {
    let doc = one_channel_doc(
        RawTimestamps::Standard(vec![0]),
        Some(RawOutputs::Rotations(vec![qid(), qid()])),
    );
    assert_eq!(import(&doc).unwrap_err(), ImportError::MalformedDocument);
}

#[test]
fn dangling_channel_target_is_malformed() {
    let mut doc = one_channel_doc(
        RawTimestamps::Standard(vec![0]),
        Some(RawOutputs::Rotations(vec![qid()])),
    );
    doc.animations[0].channels[0].target = 9;
    assert_eq!(import(&doc).unwrap_err(), ImportError::MalformedDocument);
}

#[test]
fn mesh_defects_are_reported_before_channel_defects() {
    let mut doc = one_channel_doc(RawTimestamps::Unsupported, None);
    doc.meshes.push(RawMesh {
        primitives: vec![RawPrimitive {
            positions: None,
            normals: None,
            uvs: None,
            weights: None,
            joints: None,
            indices: None,
        }],
    });
    assert_eq!(import(&doc).unwrap_err(), ImportError::MissingPositions);
}

#[test]
fn unsupported_channel_kinds_are_tolerated() {
    let doc = one_channel_doc(RawTimestamps::Standard(vec![0]), Some(RawOutputs::Other));
    let obj = import(&doc).unwrap();
    assert_eq!(obj.animations.len(), 1);
    assert_eq!(obj.animations[0].tracks.len(), 1);
}

#[test]
fn clip_length_is_the_largest_timestamp() {
    let doc = RawDocument {
        meshes: vec![],
        nodes: vec![raw_node(None, vec![])],
        animations: vec![RawAnimation {
            name: "clip".to_string(),
            channels: vec![
                RawChannel {
                    target: 0,
                    timestamps: RawTimestamps::Standard(vec![0, FX_ONE]),
                    outputs: Some(RawOutputs::Rotations(vec![qid(), qid()])),
                },
                RawChannel {
                    target: 0,
                    timestamps: RawTimestamps::Standard(vec![0, 2 * FX_ONE + 5]),
                    outputs: Some(RawOutputs::Translations(vec![v3(0, 0, 0), v3(FX_ONE, 0, 0)])),
                },
            ],
        }],
        skins: vec![],
    };
    let obj = import(&doc).unwrap();
    assert_eq!(obj.animations[0].length, 2 * FX_ONE + 5);
}

#[test]
fn clip_without_channels_has_length_zero() {
    let doc = RawDocument {
        meshes: vec![],
        nodes: vec![],
        animations: vec![RawAnimation { name: "clip".to_string(), channels: vec![] }],
        skins: vec![],
    };
    assert_eq!(import(&doc).unwrap().animations[0].length, 0);
}

#[test]
fn packing_is_lossless_for_byte_channels() {
    assert_eq!(pack4(0x01, 0x02, 0x03, 0x04), 0x0403_0201);
    assert_eq!(unpack4(0x0403_0201), (0x01, 0x02, 0x03, 0x04));
    assert_eq!(unpack4(pack4(255, 0, 17, 128)), (255, 0, 17, 128));
    assert_eq!(pack4(unpack4(0xAABB_CCDD).0, 0xCC, 0xBB, 0xAA), 0xAABB_CCDD);
}

#[test]
fn vertices_take_attributes_with_zero_defaults() {
    let prim = RawPrimitive {
        positions: Some(vec![v3(1, 2, 3), v3(4, 5, 6)]),
        normals: Some(vec![v3(7, 8, 9)]),
        uvs: None,
        weights: Some(vec![(255, 0, 0, 0), (10, 20, 30, 40)]),
        joints: Some(vec![(1, 2, 3, 260), (0, 0, 0, 0)]),
        indices: Some(vec![0, 1]),
    };
    let doc = RawDocument {
        meshes: vec![RawMesh { primitives: vec![prim] }],
        nodes: vec![],
        animations: vec![],
        skins: vec![],
    };
    let obj = import(&doc).unwrap();
    let mesh = &obj.meshes[0];
    assert_eq!(mesh.vertices.len(), 2);
    assert_eq!(mesh.vertices[0].position, v3(1, 2, 3));
    assert_eq!(mesh.vertices[0].normal, v3(7, 8, 9));
    assert_eq!(mesh.vertices[1].normal, v3(0, 0, 0));
    assert_eq!(mesh.vertices[0].uv, animations::Vec2 { x: 0, y: 0 });
    assert_eq!(mesh.vertices[0].weights, 255);
    assert_eq!(mesh.vertices[1].weights, pack4(10, 20, 30, 40));
    // Joint index 260 keeps only its low byte (260 % 256 == 4).
    assert_eq!(mesh.vertices[0].joints, pack4(1, 2, 3, 4));
    assert_eq!(mesh.indices, vec![0, 1]);
    assert_eq!(mesh.num_indices(), 2);
    assert_eq!(mesh.num_instances(), 1);
}

#[test]
fn primitives_concatenate() {
    let doc = RawDocument {
        meshes: vec![RawMesh {
            primitives: vec![
                RawPrimitive { indices: Some(vec![0, 1, 2]), ..empty_prim() },
                RawPrimitive { indices: Some(vec![7]), ..empty_prim() },
                RawPrimitive { indices: None, ..empty_prim() },
            ],
        }],
        nodes: vec![],
        animations: vec![],
        skins: vec![],
    };
    let obj = import(&doc).unwrap();
    assert_eq!(obj.meshes[0].vertices.len(), 3);
    assert_eq!(obj.meshes[0].indices, vec![0, 1, 2, 7]);
}

#[test]
fn only_the_first_skin_is_honored() {
    let doc = RawDocument {
        meshes: vec![],
        nodes: vec![raw_node(None, vec![]), raw_node(None, vec![])],
        animations: vec![],
        skins: vec![
            RawSkin { joints: vec![1], inverse_bind_matrices: None },
            RawSkin { joints: vec![0, 1], inverse_bind_matrices: None },
        ],
    };
    let obj = import(&doc).unwrap();
    assert_eq!(obj.joint_matrices().len(), 1);
}

#[test]
fn absent_inverse_bind_matrices_default_to_identity() {
    let doc = RawDocument {
        meshes: vec![],
        nodes: vec![raw_node(None, vec![])],
        animations: vec![],
        skins: vec![RawSkin { joints: vec![0], inverse_bind_matrices: None }],
    };
    let obj = import(&doc).unwrap();
    let palette = obj.joint_matrices();
    assert_eq!(palette.len(), 1);
    assert_eq!(palette[0].m00, FX_ONE);
    assert_eq!(palette[0].m11, FX_ONE);
    assert_eq!(palette[0].m03, 0);
}

#[test]
fn skin_with_dangling_joint_is_malformed() {
    let doc = RawDocument {
        meshes: vec![],
        nodes: vec![raw_node(None, vec![])],
        animations: vec![],
        skins: vec![RawSkin { joints: vec![3], inverse_bind_matrices: None }],
    };
    assert_eq!(import(&doc).unwrap_err(), ImportError::MalformedDocument);
}

#[test]
fn skin_with_mismatched_matrix_count_is_malformed() {
    let doc = RawDocument {
        meshes: vec![],
        nodes: vec![raw_node(None, vec![])],
        animations: vec![],
        skins: vec![RawSkin {
            joints: vec![0],
            inverse_bind_matrices: Some(vec![]),
        }],
    };
    assert_eq!(import(&doc).unwrap_err(), ImportError::MalformedDocument);
}

#[test]
fn import_starts_at_clip_zero_with_zero_elapsed() {
    let doc = node_doc(vec![raw_node(None, vec![])]);
    let obj = import(&doc).unwrap();
    assert_eq!(obj.current_animation, 0);
    assert_eq!(obj.elapsed, 0);
}

#[test]
fn imported_world_transform_is_the_local_transform() {
    let mut node = raw_node(None, vec![]);
    node.translation = v3(3 * FX_ONE, 0, 0);
    let doc = node_doc(vec![node]);
    let obj = import(&doc).unwrap();
    assert_eq!(obj.nodes[0].world_transform.m03, 3 * FX_ONE);
    assert_eq!(obj.nodes[0].world_transform.m00, FX_ONE);
}

#[test]
fn identity_matrix_values() {
    let m: Mat4 = animations::math::mat_identity_ex();
    assert_eq!(m.m00, FX_ONE);
    assert_eq!(m.m01, 0);
    assert_eq!(m.m33, FX_ONE);
}
