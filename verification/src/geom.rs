//! Index arithmetic for the 34x34x34 chunk grid.
//!
//! Samples live in a flat buffer indexed by `x*34*34 + y*34 + z` (34*34 is
//! written 1156 below). This module defines the flattening, its inverse, and
//! the small arithmetic facts the pass proofs need: that the flattening is
//! injective and that flattening the coordinates of a flat index gives that
//! index back.

use vstd::prelude::*;
use vstd::arithmetic::div_mod::lemma_fundamental_div_mod_converse;

verus! {

/// Flat index of the voxel at coordinates `(x, y, z)`.
pub open spec fn idx(x: int, y: int, z: int) -> int {
    x * 1156 + y * 34 + z
}

/// X coordinate of a flat index.
pub open spec fn coord_x(i: int) -> int {
    i / 1156
}

/// Y coordinate of a flat index.
pub open spec fn coord_y(i: int) -> int {
    (i % 1156) / 34
}

/// Z coordinate of a flat index.
pub open spec fn coord_z(i: int) -> int {
    i % 34
}

/// Whether `(x, y, z)` lies inside the grid.
pub open spec fn in_grid(x: int, y: int, z: int) -> bool {
    0 <= x < 34 && 0 <= y < 34 && 0 <= z < 34
}

/// Flattening coordinates in range gives a flat index in range, and the
/// coordinate functions recover the coordinates.
pub proof fn lemma_idx_coords(x: int, y: int, z: int)
    requires
        in_grid(x, y, z),
    ensures
        0 <= idx(x, y, z) < 39304,
        coord_x(idx(x, y, z)) == x,
        coord_y(idx(x, y, z)) == y,
        coord_z(idx(x, y, z)) == z,
{
    let i = idx(x, y, z);
    assert(0 <= i < 39304);
    lemma_fundamental_div_mod_converse(i, 1156, x, y * 34 + z);
    assert(coord_x(i) == x);
    assert(i % 1156 == y * 34 + z);
    lemma_fundamental_div_mod_converse(y * 34 + z, 34, y, z);
    assert(coord_y(i) == y);
    lemma_fundamental_div_mod_converse(i, 34, x * 34 + y, z);
    assert(coord_z(i) == z);
}

/// A flat index in range is the flattening of its own coordinates, which lie
/// inside the grid.
pub proof fn lemma_coords_idx(i: int)
    requires
        0 <= i < 39304,
    ensures
        in_grid(coord_x(i), coord_y(i), coord_z(i)),
        idx(coord_x(i), coord_y(i), coord_z(i)) == i,
{
    let x = i / 1156;
    let r = i % 1156;
    assert(i == 1156 * x + r && 0 <= r < 1156) by {
        assert(1156 * (i / 1156) + i % 1156 == i) by (nonlinear_arith);
        assert(0 <= i % 1156 < 1156) by (nonlinear_arith)
            requires 0 <= i;
    }
    let y = r / 34;
    let rz = r % 34;
    assert(r == 34 * y + rz && 0 <= rz < 34) by {
        assert(34 * (r / 34) + r % 34 == r) by (nonlinear_arith);
        assert(0 <= r % 34 < 34) by (nonlinear_arith)
            requires 0 <= r;
    }
    assert(i == x * 1156 + y * 34 + rz);
    assert(rz == i % 34) by {
        lemma_fundamental_div_mod_converse(i, 34, x * 34 + y, rz);
    }
    assert(0 <= x < 34);
}

} // verus!
