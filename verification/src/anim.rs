//! Keyframed animation clips and their evaluation: finding the bracketing
//! keyframes for a playback time, the interpolation fraction, and the sampled
//! rotation or translation.

use crate::fixed::{fx_add_s, fx_div, fx_div_s, fx_sub, fx_sub_s};
use crate::math::{quat_lerp, quat_lerp_s, vec3_lerp, vec3_lerp_s, Quat, Vec3};
use vstd::prelude::*;

verus! {

/// The payload of one track: what the track animates, with one value per
/// timestamp. Channel kinds that are parsed but not applied (scale, morph
/// weights) land in `Other`.
#[derive(Debug)]
pub enum Keyframes {
    Rotations(Vec<Quat>),
    Translations(Vec<Vec3>),
    Other,
}

/// One animated property of one node: a non-empty, non-decreasing sequence of
/// timestamps paired one to one with the keyframe values.
#[derive(Debug)]
pub struct Track {
    pub keyframes: Keyframes,
    /// Index of the node this track drives.
    pub target: usize,
    /// Keyframe times, fixed-point seconds.
    pub timestamps: Vec<i64>,
}

/// A named clip: tracks sharing one timeline, and the overall length, the
/// largest timestamp of any of its tracks (zero for a clip without tracks).
#[derive(Debug)]
pub struct Animation {
    /// Human-readable name, diagnostic only.
    pub name: String,
    pub length: i64,
    pub tracks: Vec<Track>,
}

/// The timestamps never decrease.
pub open spec fn non_decreasing(ts: Seq<i64>) -> bool {
    forall|a: int, b: int| 0 <= a <= b < ts.len() ==> #[trigger] ts[a] <= #[trigger] ts[b]
}

/// A track is well-formed: at least one keyframe, non-decreasing timestamps,
/// and exactly one value per timestamp.
pub open spec fn track_wf(t: Track) -> bool {
    &&& t.timestamps@.len() > 0
    &&& non_decreasing(t.timestamps@)
    &&& match t.keyframes {
        Keyframes::Rotations(qs) => qs@.len() == t.timestamps@.len(),
        Keyframes::Translations(vs) => vs@.len() == t.timestamps@.len(),
        Keyframes::Other => true,
    }
}

/// A clip is well-formed against a node table of `n_nodes` entries: every
/// track is well-formed and targets a node inside the table.
pub open spec fn animation_wf(a: Animation, n_nodes: int) -> bool {
    forall|t: int|
        0 <= t < a.tracks@.len() ==> track_wf(#[trigger] a.tracks@[t]) && (
        a.tracks@[t].target as int) < n_nodes
}

/// The index of the last keyframe at or before `time`; 0 when `time` lies
/// before every timestamp.
pub open spec fn key_index_s(ts: Seq<i64>, time: i64) -> int
    decreases ts.len(),
{
    if ts.len() == 0 {
        0
    } else if ts[ts.len() - 1] <= time {
        ts.len() - 1
    } else {
        key_index_s(ts.drop_last(), time)
    }
}

/// What characterizes the keyframe index on a sorted track: it is in range,
/// is 0 when `time` precedes the track, and otherwise is the last index whose
/// timestamp is at or before `time`.
pub proof fn lemma_key_index_char(ts: Seq<i64>, time: i64)
    requires
        ts.len() > 0,
        non_decreasing(ts),
    ensures
        0 <= key_index_s(ts, time) < ts.len(),
        ts[0] > time ==> key_index_s(ts, time) == 0,
        ts[0] <= time ==> ts[key_index_s(ts, time)] <= time,
        ts[0] <= time ==> (key_index_s(ts, time) == ts.len() - 1 || ts[key_index_s(ts, time)
            + 1] > time),
    decreases ts.len(),
{
    if ts.len() == 1 {
    } else if ts[ts.len() - 1] <= time {
    } else {
        assert(non_decreasing(ts.drop_last())) by {
            assert forall|a: int, b: int|
                0 <= a <= b < ts.drop_last().len() implies #[trigger] ts.drop_last()[a]
                <= #[trigger] ts.drop_last()[b] by {
                assert(ts[a] <= ts[b]);
            }
        }
        lemma_key_index_char(ts.drop_last(), time);
    }
}

/// Find the last keyframe index whose timestamp is at or before `time`
/// (0 when `time` precedes the whole track).
pub fn key_index(ts: &Vec<i64>, time: i64) -> (k: usize)
    requires
        ts@.len() > 0,
        non_decreasing(ts@),
    ensures
        k as int == key_index_s(ts@, time),
{
    proof {
        lemma_key_index_char(ts@, time);
    }
    let n: usize = ts.len();
    let mut k: usize = 0;
    while k + 1 < n && ts[k + 1] <= time
        invariant
            n == ts@.len(),
            n > 0,
            non_decreasing(ts@),
            k < n,
            k == 0 || ts@[k as int] <= time,
        decreases n - k,
    {
        k += 1;
    }
    proof {
        let ks = key_index_s(ts@, time);
        if ts@[0] > time {
            if k > 0 {
                assert(ts@[0] <= ts@[k as int]);
            }
        } else {
            if k < ks {
                assert(ts@[k + 1] <= ts@[ks]);
            }
            if ks < k {
                assert(ts@[ks + 1] <= ts@[k as int]);
            }
        }
    }
    k
}

/// The interpolation fraction between the bracketing keyframes: zero at (or
/// before) the earlier keyframe and when the bracket is degenerate, otherwise
/// the elapsed share of the bracket.
pub open spec fn frac_s(ts: Seq<i64>, time: i64) -> i64 {
    let k = key_index_s(ts, time);
    let k1: int = if k + 1 < ts.len() {
        k + 1
    } else {
        k
    };
    if k1 == k || ts[k1] <= ts[k] || time <= ts[k] {
        0
    } else {
        fx_div_s(fx_sub_s(time, ts[k]), fx_sub_s(ts[k1], ts[k]))
    }
}

/// The rotation a track holds at `time`: the keyframe at the index
/// interpolated toward the next keyframe by the fraction.
pub open spec fn sample_quat_s(ts: Seq<i64>, qs: Seq<Quat>, time: i64) -> Quat {
    let k = key_index_s(ts, time);
    let k1: int = if k + 1 < ts.len() {
        k + 1
    } else {
        k
    };
    quat_lerp_s(qs[k], qs[k1], frac_s(ts, time))
}

/// The translation a track holds at `time`.
pub open spec fn sample_vec3_s(ts: Seq<i64>, vs: Seq<Vec3>, time: i64) -> Vec3 {
    let k = key_index_s(ts, time);
    let k1: int = if k + 1 < ts.len() {
        k + 1
    } else {
        k
    };
    vec3_lerp_s(vs[k], vs[k1], frac_s(ts, time))
}

fn bracket(ts: &Vec<i64>, time: i64) -> (r: (usize, usize, i64))
    requires
        ts@.len() > 0,
        non_decreasing(ts@),
    ensures
        r.0 as int == key_index_s(ts@, time),
        r.1 as int == if key_index_s(ts@, time) + 1 < ts@.len() {
            key_index_s(ts@, time) + 1
        } else {
            key_index_s(ts@, time)
        },
        r.2 == frac_s(ts@, time),
{
    proof {
        lemma_key_index_char(ts@, time);
    }
    let n: usize = ts.len();
    let k: usize = key_index(ts, time);
    let k1: usize = if k + 1 < n {
        k + 1
    } else {
        k
    };
    let t: i64 = if k1 == k || ts[k1] <= ts[k] || time <= ts[k] {
        0
    } else {
        fx_div(fx_sub(time, ts[k]), fx_sub(ts[k1], ts[k]))
    };
    (k, k1, t)
}

/// Sample a rotation track at `time`.
pub fn sample_rotation(ts: &Vec<i64>, qs: &Vec<Quat>, time: i64) -> (r: Quat)
    requires
        ts@.len() > 0,
        non_decreasing(ts@),
        qs@.len() == ts@.len(),
    ensures
        r == sample_quat_s(ts@, qs@, time),
{
    proof {
        lemma_key_index_char(ts@, time);
    }
    let (k, k1, t) = bracket(ts, time);
    quat_lerp(&qs[k], &qs[k1], t)
}

/// Sample a translation track at `time`.
pub fn sample_translation(ts: &Vec<i64>, vs: &Vec<Vec3>, time: i64) -> (r: Vec3)
    requires
        ts@.len() > 0,
        non_decreasing(ts@),
        vs@.len() == ts@.len(),
    ensures
        r == sample_vec3_s(ts@, vs@, time),
{
    proof {
        lemma_key_index_char(ts@, time);
    }
    let (k, k1, t) = bracket(ts, time);
    vec3_lerp(&vs[k], &vs[k1], t)
}

/// Advance playback time by `dt` against a clip of the given length: past the
/// end the time resets hard to zero, with no remainder carried over.
pub open spec fn advance_s(elapsed: i64, dt: i64, length: i64) -> i64 {
    if fx_add_s(elapsed, dt) > length {
        0
    } else {
        fx_add_s(elapsed, dt)
    }
}

/// Advancing past the clip's length resets the playback time hard to zero:
/// no remainder is carried over.
pub proof fn lemma_hard_reset(elapsed: i64, dt: i64, length: i64)
    requires
        fx_add_s(elapsed, dt) > length,
    ensures
        advance_s(elapsed, dt, length) == 0,
{
}

/// A track with a single keyframe always yields that keyframe, whatever the
/// time: the degenerate bracket pins the fraction to zero, so nothing
/// divides.
pub proof fn lemma_single_key_rotation(ts: Seq<i64>, qs: Seq<Quat>, time: i64)
    requires
        ts.len() == 1,
        qs.len() == 1,
    ensures
        sample_quat_s(ts, qs, time) == qs[0],
{
    assert(key_index_s(ts.drop_last(), time) == 0);
    assert(key_index_s(ts, time) == 0);
    crate::fixed::lemma_lerp_zero(qs[0].x, qs[0].x);
    crate::fixed::lemma_lerp_zero(qs[0].y, qs[0].y);
    crate::fixed::lemma_lerp_zero(qs[0].z, qs[0].z);
    crate::fixed::lemma_lerp_zero(qs[0].w, qs[0].w);
}

/// The translation counterpart of [`lemma_single_key_rotation`].
pub proof fn lemma_single_key_translation(ts: Seq<i64>, vs: Seq<Vec3>, time: i64)
    requires
        ts.len() == 1,
        vs.len() == 1,
    ensures
        sample_vec3_s(ts, vs, time) == vs[0],
{
    assert(key_index_s(ts.drop_last(), time) == 0);
    assert(key_index_s(ts, time) == 0);
    crate::fixed::lemma_lerp_zero(vs[0].x, vs[0].x);
    crate::fixed::lemma_lerp_zero(vs[0].y, vs[0].y);
    crate::fixed::lemma_lerp_zero(vs[0].z, vs[0].z);
}

/// On a two-keyframe rotation track, sampling at or before the first
/// timestamp yields the first keyframe exactly.
pub proof fn lemma_two_key_rotation_start(ts: Seq<i64>, qs: Seq<Quat>, time: i64)
    requires
        ts.len() == 2,
        qs.len() == 2,
        ts[0] < ts[1],
        time <= ts[0],
    ensures
        sample_quat_s(ts, qs, time) == qs[0],
{
    assert(key_index_s(ts.drop_last().drop_last(), time) == 0);
    assert(key_index_s(ts.drop_last(), time) == 0);
    assert(key_index_s(ts, time) == 0);
    assert(frac_s(ts, time) == 0);
    crate::fixed::lemma_lerp_zero(qs[0].x, qs[1].x);
    crate::fixed::lemma_lerp_zero(qs[0].y, qs[1].y);
    crate::fixed::lemma_lerp_zero(qs[0].z, qs[1].z);
    crate::fixed::lemma_lerp_zero(qs[0].w, qs[1].w);
}

/// On a two-keyframe rotation track, sampling at or past the last timestamp
/// (before any wrap of the playback clock) yields the last keyframe exactly.
pub proof fn lemma_two_key_rotation_end(ts: Seq<i64>, qs: Seq<Quat>, time: i64)
    requires
        ts.len() == 2,
        qs.len() == 2,
        ts[0] < ts[1],
        time >= ts[1],
    ensures
        sample_quat_s(ts, qs, time) == qs[1],
{
    assert(key_index_s(ts, time) == 1);
    assert(frac_s(ts, time) == 0);
    crate::fixed::lemma_lerp_zero(qs[1].x, qs[1].x);
    crate::fixed::lemma_lerp_zero(qs[1].y, qs[1].y);
    crate::fixed::lemma_lerp_zero(qs[1].z, qs[1].z);
    crate::fixed::lemma_lerp_zero(qs[1].w, qs[1].w);
}

/// Strictly between the two keyframes of a rotation track, the sample is the
/// interpolation of the two by the elapsed share of the bracket.
pub proof fn lemma_two_key_rotation_between(ts: Seq<i64>, qs: Seq<Quat>, time: i64)
    requires
        ts.len() == 2,
        qs.len() == 2,
        ts[0] < time < ts[1],
    ensures
        sample_quat_s(ts, qs, time) == quat_lerp_s(
            qs[0],
            qs[1],
            fx_div_s(fx_sub_s(time, ts[0]), fx_sub_s(ts[1], ts[0])),
        ),
{
    assert(key_index_s(ts.drop_last(), time) == 0);
    assert(key_index_s(ts, time) == 0);
}

/// On the track with timestamps 0 and 1 (one second), sampling halfway
/// yields the two keyframes interpolated by exactly one half.
pub proof fn lemma_two_key_rotation_midpoint(qs: Seq<Quat>)
    requires
        qs.len() == 2,
    ensures
        sample_quat_s(seq![0i64, crate::fixed::FX_ONE], qs, 32768) == quat_lerp_s(
            qs[0],
            qs[1],
            32768,
        ),
{
    let ts = seq![0i64, crate::fixed::FX_ONE];
    lemma_two_key_rotation_between(ts, qs, 32768);
    assert(fx_sub_s(32768, 0) == 32768);
    assert(fx_sub_s(crate::fixed::FX_ONE, 0) == crate::fixed::FX_ONE);
    assert(fx_div_s(32768, crate::fixed::FX_ONE) == 32768) by {
        vstd::arithmetic::div_mod::lemma_div_multiples_vanish(32768, 65536);
    }
}

} // verus!
