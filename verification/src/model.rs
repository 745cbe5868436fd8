//! Mathematical model of the light pipeline.
//!
//! Each directional pass works one scan-line at a time. A scan-line is swept
//! by two carried values at once: `a` walks the line from the low end and `b`
//! from the high end. At each step a carry takes the maximum of itself and
//! the sample under it, writes that maximum back, and then decays by one
//! (never below zero). The two carries share the buffer, and within one step
//! the low-end write happens before the high-end read, so on the half of the
//! line a carry visits last it reads samples the other carry has already
//! raised. `sweep` captures that interleaving exactly.

use vstd::prelude::*;
use crate::geom::{idx, coord_x, coord_y, coord_z};

verus! {

/// Maximum of two integers.
pub open spec fn vmax(a: int, b: int) -> int {
    if a >= b {
        a
    } else {
        b
    }
}

/// One unit of decay, saturating at zero.
pub open spec fn decay(a: int) -> int {
    if a >= 1 {
        a - 1
    } else {
        0
    }
}

/// State of one scan-line after the sweeps have finished steps `i..len`:
/// at step `i` the low carry `a` raises position `i`, then the high carry
/// `b` raises position `len - 1 - i` of the already-updated line, and both
/// carries decay before the next step.
pub open spec fn sweep(s: Seq<u8>, a: u8, b: u8, i: nat) -> Seq<u8>
    decreases s.len() - i,
{
    if i >= s.len() {
        s
    } else {
        let j = s.len() - 1 - i;
        let a1 = vmax(a as int, s[i as int] as int) as u8;
        let s1 = s.update(i as int, a1);
        let b1 = vmax(b as int, s1[j as int] as int) as u8;
        let s2 = s1.update(j as int, b1);
        sweep(s2, decay(a1 as int) as u8, decay(b1 as int) as u8, i + 1)
    }
}

/// A full decay-propagation pass over one scan-line.
pub open spec fn blur_line(s: Seq<u8>) -> Seq<u8> {
    sweep(s, 0, 0, 0)
}

/// The scan-line along X through `(_, y, z)`.
pub open spec fn line_x(s: Seq<u8>, y: int, z: int) -> Seq<u8> {
    Seq::new(34, |x: int| s[idx(x, y, z)])
}

/// The scan-line along Y through `(x, _, z)`.
pub open spec fn line_y(s: Seq<u8>, x: int, z: int) -> Seq<u8> {
    Seq::new(34, |y: int| s[idx(x, y, z)])
}

/// The scan-line along Z through `(x, y, _)`.
pub open spec fn line_z(s: Seq<u8>, x: int, y: int) -> Seq<u8> {
    Seq::new(34, |z: int| s[idx(x, y, z)])
}

/// The whole buffer after the X pass: every X scan-line blurred.
pub open spec fn blur_x_spec(s: Seq<u8>) -> Seq<u8> {
    Seq::new(s.len(), |i: int| blur_line(line_x(s, coord_y(i), coord_z(i)))[coord_x(i)])
}

/// The whole buffer after the Y pass: every Y scan-line blurred.
pub open spec fn blur_y_spec(s: Seq<u8>) -> Seq<u8> {
    Seq::new(s.len(), |i: int| blur_line(line_y(s, coord_x(i), coord_z(i)))[coord_y(i)])
}

/// The whole buffer after the Z pass: every Z scan-line blurred.
pub open spec fn blur_z_spec(s: Seq<u8>) -> Seq<u8> {
    Seq::new(s.len(), |i: int| blur_line(line_z(s, coord_x(i), coord_y(i)))[coord_z(i)])
}

/// The occlusion pass: the light at a voxel whose block is solid is halved,
/// rounding down; everywhere else it is kept.
pub open spec fn occlude_spec(light: Seq<u8>, blocks: Seq<u8>) -> Seq<u8> {
    Seq::new(
        light.len(),
        |i: int|
            if blocks[i] != 0 {
                ((light[i] as int) / 2) as u8
            } else {
                light[i]
            },
    )
}

/// The full pipeline: the three directional passes in X, Y, Z order, then
/// occlusion.
pub open spec fn pipeline_spec(light: Seq<u8>, blocks: Seq<u8>) -> Seq<u8> {
    occlude_spec(blur_z_spec(blur_y_spec(blur_x_spec(light))), blocks)
}

/// Every sample of `s` is at most `m`.
pub open spec fn all_at_most(s: Seq<u8>, m: int) -> bool {
    forall|i: int| 0 <= i < s.len() ==> #[trigger] s[i] <= m
}

} // verus!
