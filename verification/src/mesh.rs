//! Mesh data: vertices with packed skinning attributes, and index lists.
//!
//! Per vertex the four joint weights and the four joint indices are each
//! packed into one `u32`, a byte per channel, least-significant byte first.
//! The packing is lossless for the 8-bit precision the interchange format
//! provides: see the round-trip lemma.

use crate::math::{Vec2, Vec3};
use vstd::prelude::*;

verus! {

/// One skinned vertex. `weights` and `joints` hold four 8-bit channels each,
/// packed least-significant byte first.
#[derive(Clone, Copy, Debug, PartialEq, Eq, Structural)]
pub struct AnimatedVertex {
    pub position: Vec3,
    pub normal: Vec3,
    pub uv: Vec2,
    pub weights: u32,
    pub joints: u32,
}

/// An immutable triangle mesh: vertices and an index list.
#[derive(Debug)]
pub struct Mesh {
    pub vertices: Vec<AnimatedVertex>,
    pub indices: Vec<u32>,
}

impl Mesh {
    /// Each mesh draws as a single instance.
    pub fn num_instances(&self) -> (r: u32)
        ensures
            r == 1u32,
    {
        1
    }

    /// How many indices the mesh draws.
    pub fn num_indices(&self) -> (r: u32)
        requires
            self.indices@.len() <= u32::MAX,
        ensures
            r as int == self.indices@.len(),
    {
        self.indices.len() as u32
    }
}

/// Four bytes packed into one word, least-significant byte first.
pub open spec fn pack4_s(b0: u8, b1: u8, b2: u8, b3: u8) -> u32 {
    (b0 + b1 * 256 + b2 * 65536 + b3 * 16777216) as u32
}

/// The four byte channels of a packed word, least-significant first.
pub open spec fn unpack4_s(w: u32) -> (u8, u8, u8, u8) {
    ((w % 256) as u8, ((w / 256) % 256) as u8, ((w / 65536) % 256) as u8, ((w / 16777216) as u8))
}

/// Pack four byte channels into one word.
pub fn pack4(b0: u8, b1: u8, b2: u8, b3: u8) -> (r: u32)
    ensures
        r == pack4_s(b0, b1, b2, b3),
{
    b0 as u32 + (b1 as u32) * 256 + (b2 as u32) * 65536 + (b3 as u32) * 16777216
}

/// Unpack the four byte channels of a word.
pub fn unpack4(w: u32) -> (r: (u8, u8, u8, u8))
    ensures
        r == unpack4_s(w),
{
    ((w % 256) as u8, ((w / 256) % 256) as u8, ((w / 65536) % 256) as u8, (w / 16777216) as u8)
}

/// Packing four byte channels loses nothing: unpacking gives them back, and
/// packing the unpacked channels of any word restores the word.
pub proof fn lemma_pack4_round_trip(b0: u8, b1: u8, b2: u8, b3: u8, w: u32)
    ensures
        unpack4_s(pack4_s(b0, b1, b2, b3)) == (b0, b1, b2, b3),
        pack4_s(
            unpack4_s(w).0,
            unpack4_s(w).1,
            unpack4_s(w).2,
            unpack4_s(w).3,
        ) == w,
{
    assert(unpack4_s(pack4_s(b0, b1, b2, b3)) == (b0, b1, b2, b3)) by (nonlinear_arith);
    assert(pack4_s(unpack4_s(w).0, unpack4_s(w).1, unpack4_s(w).2, unpack4_s(w).3) == w)
        by (nonlinear_arith);
}

} // verus!
