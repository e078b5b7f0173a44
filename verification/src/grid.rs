//! A sampled scalar field on a wrapping grid, with bilinear interpolation:
//! the lookup behind heightfield terrain and ocean-wave textures. The cell
//! values come from the caller (a noise generator, a loaded image); the
//! interpolation is what this module defines.

use crate::fixed::{fx_lerp, fx_lerp_s, FX_ONE};
use vstd::prelude::*;

verus! {

/// A `width` x `height` grid of fixed-point samples, row-major, both axes
/// wrapping.
#[derive(Debug)]
pub struct Heightfield {
    pub width: usize,
    pub height: usize,
    pub data: Vec<i64>,
}

impl Heightfield {
    /// One sample per cell, at least one cell each way, and dimensions small
    /// enough that a scaled coordinate cannot overflow.
    pub open spec fn wf(self) -> bool {
        &&& self.width >= 1
        &&& self.height >= 1
        &&& self.width <= 0xFFFF_FFFF
        &&& self.height <= 0xFFFF_FFFF
        &&& self.data@.len() == self.width * self.height
    }

    /// The sample of row `y`, column `x`.
    pub open spec fn at_s(self, x: int, y: int) -> i64 {
        self.data@[y * (self.width as int) + x]
    }

    /// Wrap a grid of samples, checking the dimensions.
    pub fn new(width: usize, height: usize, data: Vec<i64>) -> (r: Option<Heightfield>)
        ensures
            match r {
                Some(h) => h.wf() && h.width == width && h.height == height && h.data@ == data@,
                None => !(Heightfield { width, height, data }).wf(),
            },
    {
        if width >= 1 && height >= 1 && width <= 0xFFFF_FFFF && height <= 0xFFFF_FFFF
            && width.checked_mul(height) == Some(data.len()) {
            Some(Heightfield { width, height, data })
        } else {
            None
        }
    }
}

/// The fractional part of a non-negative coordinate, scaled by an axis size:
/// which column (or row) the coordinate falls in, and how far into it, both
/// encoded in one fixed-point number.
pub open spec fn scaled_coord_s(u: i64, size: int) -> int {
    ((u as int) % (FX_ONE as int)) * size
}

/// Bilinear lookup at the point `(u, v)`, both coordinates wrapping at 1:
/// the four surrounding cells blended by the within-cell offsets.
pub open spec fn sample_s(h: Heightfield, u: i64, v: i64) -> i64
    recommends
        h.wf(),
        u >= 0,
        v >= 0,
{
    let w = h.width as int;
    let hh = h.height as int;
    let pu = scaled_coord_s(u, w);
    let pv = scaled_coord_s(v, hh);
    let x0 = pu / (FX_ONE as int);
    let y0 = pv / (FX_ONE as int);
    let x1 = if x0 + 1 < w {
        x0 + 1
    } else {
        0
    };
    let y1 = if y0 + 1 < hh {
        y0 + 1
    } else {
        0
    };
    let fx = (pu % (FX_ONE as int)) as i64;
    let fy = (pv % (FX_ONE as int)) as i64;
    let bottom = fx_lerp_s(h.at_s(x0, y0), h.at_s(x1, y0), fx);
    let top = fx_lerp_s(h.at_s(x0, y1), h.at_s(x1, y1), fx);
    fx_lerp_s(bottom, top, fy)
}

impl Heightfield {
    /// Sample the field at `(u, v)` with bilinear interpolation, both axes
    /// wrapping at 1.
    pub fn sample(&self, u: i64, v: i64) -> (r: i64)
        requires
            self.wf(),
            u >= 0,
            v >= 0,
        ensures
            r == sample_s(*self, u, v),
    {
        let w: usize = self.width;
        let h: usize = self.height;
        let ru: u64 = (u as u64) % 65536;
        let rv: u64 = (v as u64) % 65536;
        proof {
            assert(ru * (w as u64) < (w as u64) * 65536 && (w as u64) * 65536
                <= 0x1_0000_0000_0000u64 && rv * (h as u64) < (h as u64) * 65536 && (h as u64)
                * 65536 <= 0x1_0000_0000_0000u64) by (nonlinear_arith)
                requires
                    0 <= ru < 65536,
                    0 <= rv < 65536,
                    1 <= w <= 0xFFFF_FFFF,
                    1 <= h <= 0xFFFF_FFFF,
            ;
        }
        let pu: u64 = ru * (w as u64);
        let pv: u64 = rv * (h as u64);
        proof {
            assert(pu / 65536 < w as u64 && pv / 65536 < h as u64) by (nonlinear_arith)
                requires
                    pu < (w as u64) * 65536,
                    pv < (h as u64) * 65536,
            ;
            assert(pu as int == scaled_coord_s(u, w as int));
            assert(pv as int == scaled_coord_s(v, h as int));
        }
        let x0: usize = (pu / 65536) as usize;
        let y0: usize = (pv / 65536) as usize;
        let x1: usize = if x0 + 1 < w {
            x0 + 1
        } else {
            0
        };
        let y1: usize = if y0 + 1 < h {
            y0 + 1
        } else {
            0
        };
        let fx: i64 = (pu % 65536) as i64;
        let fy: i64 = (pv % 65536) as i64;
        let bottom: i64 = fx_lerp(self.cell(x0, y0), self.cell(x1, y0), fx);
        let top: i64 = fx_lerp(self.cell(x0, y1), self.cell(x1, y1), fx);
        fx_lerp(bottom, top, fy)
    }

    /// Read the sample of row `y`, column `x`.
    pub fn cell(&self, x: usize, y: usize) -> (r: i64)
        requires
            self.wf(),
            x < self.width,
            y < self.height,
        ensures
            r == self.at_s(x as int, y as int),
    {
        let n: usize = self.data.len();
        proof {
            assert((y as int) * (self.width as int) + (x as int) < n) by (nonlinear_arith)
                requires
                    x < self.width,
                    y < self.height,
                    n == (self.width as int) * (self.height as int),
            ;
        }
        self.data[y * self.width + x]
    }
}

} // verus!
