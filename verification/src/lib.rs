//! Skeletal-animation core: scene-graph import, keyframe evaluation,
//! world-transform propagation and joint-palette resolution.
//!
//! All geometry is carried in signed 64-bit fixed-point numbers with 16
//! fractional bits (see [`fixed`]); arithmetic saturates at the `i64` range.

pub mod anim;
pub mod fixed;
pub mod grid;
pub mod import;
pub mod math;
pub mod mesh;
pub mod object;
pub mod scene;

pub use anim::{Animation, Keyframes, Track};
pub use fixed::FX_ONE;
pub use grid::Heightfield;
pub use import::{import, ImportError, RawAnimation, RawChannel, RawDocument, RawMesh, RawNode,
    RawOutputs, RawPrimitive, RawSkin, RawTimestamps};
pub use math::{Mat4, Quat, Vec2, Vec3};
pub use mesh::{AnimatedVertex, Mesh};
pub use object::AnimatedObject;
pub use scene::{Node, NodeType};
