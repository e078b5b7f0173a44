//! Vectors, quaternions and 4x4 affine matrices over the fixed-point scalars.
//!
//! Matrices are row-major: entry `m{r}{c}` sits in row `r`, column `c`, and a
//! product `mat_mul(a, b)` applies `b` first, `a` second, as in column-vector
//! convention `a * b * v`. Translation lives in column 3.

use crate::fixed::{fx_add, fx_add_s, fx_lerp, fx_lerp_s, fx_mul, fx_mul_s, fx_sub, fx_sub_s,
    lemma_fx_mul_one, FX_ONE};
use vstd::prelude::*;

verus! {

/// The fixed-point representation of 2.
pub const FX_TWO: i64 = 131072;

/// A two-component vector (texture coordinates).
#[derive(Clone, Copy, Debug, PartialEq, Eq, Structural)]
pub struct Vec2 {
    pub x: i64,
    pub y: i64,
}

/// A three-component vector (positions, translations, scales, normals).
#[derive(Clone, Copy, Debug, PartialEq, Eq, Structural)]
pub struct Vec3 {
    pub x: i64,
    pub y: i64,
    pub z: i64,
}

/// A quaternion, `w` the scalar part. Rotation keyframes carry unit
/// quaternions, though nothing here depends on normalization.
#[derive(Clone, Copy, Debug, PartialEq, Eq, Structural)]
pub struct Quat {
    pub x: i64,
    pub y: i64,
    pub z: i64,
    pub w: i64,
}

/// A row-major 4x4 matrix.
#[derive(Clone, Copy, Debug, PartialEq, Eq, Structural)]
pub struct Mat4 {
    pub m00: i64,
    pub m01: i64,
    pub m02: i64,
    pub m03: i64,
    pub m10: i64,
    pub m11: i64,
    pub m12: i64,
    pub m13: i64,
    pub m20: i64,
    pub m21: i64,
    pub m22: i64,
    pub m23: i64,
    pub m30: i64,
    pub m31: i64,
    pub m32: i64,
    pub m33: i64,
}

/// The zero vector.
pub open spec fn vec2_zero() -> Vec2 {
    Vec2 { x: 0, y: 0 }
}

/// The zero vector.
pub open spec fn vec3_zero() -> Vec3 {
    Vec3 { x: 0, y: 0, z: 0 }
}

/// The identity matrix.
pub open spec fn mat_identity() -> Mat4 {
    Mat4 {
        m00: FX_ONE,
        m01: 0,
        m02: 0,
        m03: 0,
        m10: 0,
        m11: FX_ONE,
        m12: 0,
        m13: 0,
        m20: 0,
        m21: 0,
        m22: FX_ONE,
        m23: 0,
        m30: 0,
        m31: 0,
        m32: 0,
        m33: FX_ONE,
    }
}

/// The identity matrix, as a runtime value.
pub fn mat_identity_ex() -> (r: Mat4)
    ensures
        r == mat_identity(),
{
    Mat4 {
        m00: FX_ONE,
        m01: 0,
        m02: 0,
        m03: 0,
        m10: 0,
        m11: FX_ONE,
        m12: 0,
        m13: 0,
        m20: 0,
        m21: 0,
        m22: FX_ONE,
        m23: 0,
        m30: 0,
        m31: 0,
        m32: 0,
        m33: FX_ONE,
    }
}

/// A four-term saturating dot product, summed left to right.
pub open spec fn dot4_s(a0: i64, a1: i64, a2: i64, a3: i64, b0: i64, b1: i64, b2: i64, b3: i64) -> i64 {
    fx_add_s(
        fx_add_s(fx_add_s(fx_mul_s(a0, b0), fx_mul_s(a1, b1)), fx_mul_s(a2, b2)),
        fx_mul_s(a3, b3),
    )
}

fn dot4(a0: i64, a1: i64, a2: i64, a3: i64, b0: i64, b1: i64, b2: i64, b3: i64) -> (r: i64)
    ensures
        r == dot4_s(a0, a1, a2, a3, b0, b1, b2, b3),
{
    fx_add(fx_add(fx_add(fx_mul(a0, b0), fx_mul(a1, b1)), fx_mul(a2, b2)), fx_mul(a3, b3))
}

/// The matrix product, entry by entry a saturating dot product.
#[verifier::opaque]
pub open spec fn mat_mul_s(a: Mat4, b: Mat4) -> Mat4 {
    Mat4 {
        m00: dot4_s(a.m00, a.m01, a.m02, a.m03, b.m00, b.m10, b.m20, b.m30),
        m01: dot4_s(a.m00, a.m01, a.m02, a.m03, b.m01, b.m11, b.m21, b.m31),
        m02: dot4_s(a.m00, a.m01, a.m02, a.m03, b.m02, b.m12, b.m22, b.m32),
        m03: dot4_s(a.m00, a.m01, a.m02, a.m03, b.m03, b.m13, b.m23, b.m33),
        m10: dot4_s(a.m10, a.m11, a.m12, a.m13, b.m00, b.m10, b.m20, b.m30),
        m11: dot4_s(a.m10, a.m11, a.m12, a.m13, b.m01, b.m11, b.m21, b.m31),
        m12: dot4_s(a.m10, a.m11, a.m12, a.m13, b.m02, b.m12, b.m22, b.m32),
        m13: dot4_s(a.m10, a.m11, a.m12, a.m13, b.m03, b.m13, b.m23, b.m33),
        m20: dot4_s(a.m20, a.m21, a.m22, a.m23, b.m00, b.m10, b.m20, b.m30),
        m21: dot4_s(a.m20, a.m21, a.m22, a.m23, b.m01, b.m11, b.m21, b.m31),
        m22: dot4_s(a.m20, a.m21, a.m22, a.m23, b.m02, b.m12, b.m22, b.m32),
        m23: dot4_s(a.m20, a.m21, a.m22, a.m23, b.m03, b.m13, b.m23, b.m33),
        m30: dot4_s(a.m30, a.m31, a.m32, a.m33, b.m00, b.m10, b.m20, b.m30),
        m31: dot4_s(a.m30, a.m31, a.m32, a.m33, b.m01, b.m11, b.m21, b.m31),
        m32: dot4_s(a.m30, a.m31, a.m32, a.m33, b.m02, b.m12, b.m22, b.m32),
        m33: dot4_s(a.m30, a.m31, a.m32, a.m33, b.m03, b.m13, b.m23, b.m33),
    }
}

/// Multiply two matrices.
pub fn mat_mul(a: &Mat4, b: &Mat4) -> (r: Mat4)
    ensures
        r == mat_mul_s(*a, *b),
{
    proof {
        reveal(mat_mul_s);
    }
    Mat4 {
        m00: dot4(a.m00, a.m01, a.m02, a.m03, b.m00, b.m10, b.m20, b.m30),
        m01: dot4(a.m00, a.m01, a.m02, a.m03, b.m01, b.m11, b.m21, b.m31),
        m02: dot4(a.m00, a.m01, a.m02, a.m03, b.m02, b.m12, b.m22, b.m32),
        m03: dot4(a.m00, a.m01, a.m02, a.m03, b.m03, b.m13, b.m23, b.m33),
        m10: dot4(a.m10, a.m11, a.m12, a.m13, b.m00, b.m10, b.m20, b.m30),
        m11: dot4(a.m10, a.m11, a.m12, a.m13, b.m01, b.m11, b.m21, b.m31),
        m12: dot4(a.m10, a.m11, a.m12, a.m13, b.m02, b.m12, b.m22, b.m32),
        m13: dot4(a.m10, a.m11, a.m12, a.m13, b.m03, b.m13, b.m23, b.m33),
        m20: dot4(a.m20, a.m21, a.m22, a.m23, b.m00, b.m10, b.m20, b.m30),
        m21: dot4(a.m20, a.m21, a.m22, a.m23, b.m01, b.m11, b.m21, b.m31),
        m22: dot4(a.m20, a.m21, a.m22, a.m23, b.m02, b.m12, b.m22, b.m32),
        m23: dot4(a.m20, a.m21, a.m22, a.m23, b.m03, b.m13, b.m23, b.m33),
        m30: dot4(a.m30, a.m31, a.m32, a.m33, b.m00, b.m10, b.m20, b.m30),
        m31: dot4(a.m30, a.m31, a.m32, a.m33, b.m01, b.m11, b.m21, b.m31),
        m32: dot4(a.m30, a.m31, a.m32, a.m33, b.m02, b.m12, b.m22, b.m32),
        m33: dot4(a.m30, a.m31, a.m32, a.m33, b.m03, b.m13, b.m23, b.m33),
    }
}

/// Multiplying by the identity on the left changes nothing.
pub proof fn lemma_mat_mul_identity_left(m: Mat4)
    ensures
        mat_mul_s(mat_identity(), m) == m,
{
    reveal(mat_mul_s);
    lemma_fx_mul_one(m.m00);
    lemma_fx_mul_one(m.m01);
    lemma_fx_mul_one(m.m02);
    lemma_fx_mul_one(m.m03);
    lemma_fx_mul_one(m.m10);
    lemma_fx_mul_one(m.m11);
    lemma_fx_mul_one(m.m12);
    lemma_fx_mul_one(m.m13);
    lemma_fx_mul_one(m.m20);
    lemma_fx_mul_one(m.m21);
    lemma_fx_mul_one(m.m22);
    lemma_fx_mul_one(m.m23);
    lemma_fx_mul_one(m.m30);
    lemma_fx_mul_one(m.m31);
    lemma_fx_mul_one(m.m32);
    lemma_fx_mul_one(m.m33);
}

/// Multiplying by the identity on the right changes nothing.
pub proof fn lemma_mat_mul_identity_right(m: Mat4)
    ensures
        mat_mul_s(m, mat_identity()) == m,
{
    reveal(mat_mul_s);
    lemma_fx_mul_one(m.m00);
    lemma_fx_mul_one(m.m01);
    lemma_fx_mul_one(m.m02);
    lemma_fx_mul_one(m.m03);
    lemma_fx_mul_one(m.m10);
    lemma_fx_mul_one(m.m11);
    lemma_fx_mul_one(m.m12);
    lemma_fx_mul_one(m.m13);
    lemma_fx_mul_one(m.m20);
    lemma_fx_mul_one(m.m21);
    lemma_fx_mul_one(m.m22);
    lemma_fx_mul_one(m.m23);
    lemma_fx_mul_one(m.m30);
    lemma_fx_mul_one(m.m31);
    lemma_fx_mul_one(m.m32);
    lemma_fx_mul_one(m.m33);
}

/// The rotation matrix of a unit quaternion.
#[verifier::opaque]
pub open spec fn rotation_mat_s(q: Quat) -> Mat4 {
    let xx = fx_mul_s(q.x, q.x);
    let yy = fx_mul_s(q.y, q.y);
    let zz = fx_mul_s(q.z, q.z);
    let xy = fx_mul_s(q.x, q.y);
    let xz = fx_mul_s(q.x, q.z);
    let yz = fx_mul_s(q.y, q.z);
    let wx = fx_mul_s(q.w, q.x);
    let wy = fx_mul_s(q.w, q.y);
    let wz = fx_mul_s(q.w, q.z);
    Mat4 {
        m00: fx_sub_s(FX_ONE, fx_mul_s(FX_TWO, fx_add_s(yy, zz))),
        m01: fx_mul_s(FX_TWO, fx_sub_s(xy, wz)),
        m02: fx_mul_s(FX_TWO, fx_add_s(xz, wy)),
        m03: 0,
        m10: fx_mul_s(FX_TWO, fx_add_s(xy, wz)),
        m11: fx_sub_s(FX_ONE, fx_mul_s(FX_TWO, fx_add_s(xx, zz))),
        m12: fx_mul_s(FX_TWO, fx_sub_s(yz, wx)),
        m13: 0,
        m20: fx_mul_s(FX_TWO, fx_sub_s(xz, wy)),
        m21: fx_mul_s(FX_TWO, fx_add_s(yz, wx)),
        m22: fx_sub_s(FX_ONE, fx_mul_s(FX_TWO, fx_add_s(xx, yy))),
        m23: 0,
        m30: 0,
        m31: 0,
        m32: 0,
        m33: FX_ONE,
    }
}

/// Build the rotation matrix of a quaternion.
pub fn rotation_mat(q: &Quat) -> (r: Mat4)
    ensures
        r == rotation_mat_s(*q),
{
    proof {
        reveal(rotation_mat_s);
    }
    let xx = fx_mul(q.x, q.x);
    let yy = fx_mul(q.y, q.y);
    let zz = fx_mul(q.z, q.z);
    let xy = fx_mul(q.x, q.y);
    let xz = fx_mul(q.x, q.z);
    let yz = fx_mul(q.y, q.z);
    let wx = fx_mul(q.w, q.x);
    let wy = fx_mul(q.w, q.y);
    let wz = fx_mul(q.w, q.z);
    Mat4 {
        m00: fx_sub(FX_ONE, fx_mul(FX_TWO, fx_add(yy, zz))),
        m01: fx_mul(FX_TWO, fx_sub(xy, wz)),
        m02: fx_mul(FX_TWO, fx_add(xz, wy)),
        m03: 0,
        m10: fx_mul(FX_TWO, fx_add(xy, wz)),
        m11: fx_sub(FX_ONE, fx_mul(FX_TWO, fx_add(xx, zz))),
        m12: fx_mul(FX_TWO, fx_sub(yz, wx)),
        m13: 0,
        m20: fx_mul(FX_TWO, fx_sub(xz, wy)),
        m21: fx_mul(FX_TWO, fx_add(yz, wx)),
        m22: fx_sub(FX_ONE, fx_mul(FX_TWO, fx_add(xx, yy))),
        m23: 0,
        m30: 0,
        m31: 0,
        m32: 0,
        m33: FX_ONE,
    }
}

/// A pure translation matrix.
pub open spec fn translation_mat_s(v: Vec3) -> Mat4 {
    Mat4 { m03: v.x, m13: v.y, m23: v.z, ..mat_identity() }
}

/// A pure (axis-aligned) scale matrix.
pub open spec fn scale_mat_s(v: Vec3) -> Mat4 {
    Mat4 { m00: v.x, m11: v.y, m22: v.z, ..mat_identity() }
}

/// Compose translation, rotation and scale into one affine matrix: the scale
/// applies first, the translation last.
#[verifier::opaque]
pub open spec fn trs_mat_s(t: Vec3, r: Quat, s: Vec3) -> Mat4 {
    mat_mul_s(mat_mul_s(translation_mat_s(t), rotation_mat_s(r)), scale_mat_s(s))
}

/// Build the composed local matrix of a translation/rotation/scale triple.
pub fn trs_mat(t: &Vec3, r: &Quat, s: &Vec3) -> (m: Mat4)
    ensures
        m == trs_mat_s(*t, *r, *s),
{
    proof {
        reveal(trs_mat_s);
    }
    let tm = Mat4 { m03: t.x, m13: t.y, m23: t.z, ..mat_identity_ex() };
    let sm = Mat4 { m00: s.x, m11: s.y, m22: s.z, ..mat_identity_ex() };
    let rm = rotation_mat(r);
    mat_mul(&mat_mul(&tm, &rm), &sm)
}

/// Component-wise linear interpolation of two vectors.
pub open spec fn vec3_lerp_s(a: Vec3, b: Vec3, t: i64) -> Vec3 {
    Vec3 { x: fx_lerp_s(a.x, b.x, t), y: fx_lerp_s(a.y, b.y, t), z: fx_lerp_s(a.z, b.z, t) }
}

/// Interpolate two vectors component by component.
pub fn vec3_lerp(a: &Vec3, b: &Vec3, t: i64) -> (r: Vec3)
    ensures
        r == vec3_lerp_s(*a, *b, t),
{
    Vec3 { x: fx_lerp(a.x, b.x, t), y: fx_lerp(a.y, b.y, t), z: fx_lerp(a.z, b.z, t) }
}

/// Rotation interpolation: component-wise linear interpolation of the two
/// quaternions. It lands exactly on the endpoints at fractions 0 and 1; the
/// consumer renormalizes, as GPU skinning shaders do.
pub open spec fn quat_lerp_s(a: Quat, b: Quat, t: i64) -> Quat {
    Quat {
        x: fx_lerp_s(a.x, b.x, t),
        y: fx_lerp_s(a.y, b.y, t),
        z: fx_lerp_s(a.z, b.z, t),
        w: fx_lerp_s(a.w, b.w, t),
    }
}

/// Interpolate two rotations (see [`quat_lerp_s`]).
pub fn quat_lerp(a: &Quat, b: &Quat, t: i64) -> (r: Quat)
    ensures
        r == quat_lerp_s(*a, *b, t),
{
    Quat {
        x: fx_lerp(a.x, b.x, t),
        y: fx_lerp(a.y, b.y, t),
        z: fx_lerp(a.z, b.z, t),
        w: fx_lerp(a.w, b.w, t),
    }
}

} // verus!
