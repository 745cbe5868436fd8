//! The three directional decay-propagation passes.
//!
//! Each pass visits every scan-line perpendicular to its axis, copies the
//! line out, runs the two-carry sweep over it, and writes it back. The
//! contract of each pass says that every scan-line of the result is exactly
//! `blur_line` of the same scan-line of the input.

use vstd::prelude::*;
use crate::geom::{idx, coord_x, coord_y, coord_z, in_grid, lemma_idx_coords, lemma_coords_idx};
use crate::model::{vmax, decay, sweep, blur_line, line_x, line_y, line_z, blur_x_spec,
    blur_y_spec, blur_z_spec};

verus! {

/// Run the interleaved two-carry decay sweep over one scan-line.
pub fn blur_scan_line(line: &mut Vec<u8>)
    requires
        old(line).len() == 34,
    ensures
        final(line).len() == 34,
        final(line)@ == blur_line(old(line)@),
{
    let mut a: u8 = 0;
    let mut b: u8 = 0;
    let mut i: usize = 0;
    while i < 34
        invariant
            line.len() == 34,
            i <= 34,
            blur_line(old(line)@) == sweep(line@, a, b, i as nat),
        decreases 34 - i,
    {
        let ghost pre = line@;
        let ghost a0 = a;
        let ghost b0 = b;
        let cur = line[i];
        let a1 = if a >= cur {
            a
        } else {
            cur
        };
        line.set(i, a1);
        a = if a1 > 0 {
            a1 - 1
        } else {
            0
        };
        let j = 33 - i;
        let cur2 = line[j];
        let b1 = if b >= cur2 {
            b
        } else {
            cur2
        };
        line.set(j, b1);
        b = if b1 > 0 {
            b1 - 1
        } else {
            0
        };
        proof {
            assert(a1 == vmax(a0 as int, pre[i as int] as int) as u8);
            assert(line@ == pre.update(i as int, a1).update(j as int, b1));
            assert(a as int == decay(a1 as int));
            assert(b as int == decay(b1 as int));
            assert(sweep(pre, a0, b0, i as nat) == sweep(line@, a, b, (i + 1) as nat));
        }
        i = i + 1;
    }
    proof {
        assert(sweep(line@, a, b, 34nat) == line@);
    }
}

/// The X pass: blur every scan-line along X.
#[verifier::rlimit(100)]
pub fn blur_x(data: &mut Vec<u8>)
    requires
        old(data).len() == 39304,
    ensures
        final(data).len() == 39304,
        final(data)@ == blur_x_spec(old(data)@),
{
    let ghost orig = data@;
    let mut y: usize = 0;
    while y < 34
        invariant
            data.len() == 39304,
            orig.len() == 39304,
            orig == old(data)@,
            y <= 34,
            forall|xx: int, yy: int, zz: int|
                in_grid(xx, yy, zz) && yy < y ==> #[trigger] data@[idx(xx, yy, zz)]
                    == blur_line(line_x(orig, yy, zz))[xx],
            forall|xx: int, yy: int, zz: int|
                in_grid(xx, yy, zz) && yy >= y ==> #[trigger] data@[idx(xx, yy, zz)]
                    == orig[idx(xx, yy, zz)],
        decreases 34 - y,
    {
        let mut z: usize = 0;
        while z < 34
            invariant
                data.len() == 39304,
                orig.len() == 39304,
                y < 34,
                z <= 34,
                forall|xx: int, yy: int, zz: int|
                    in_grid(xx, yy, zz) && (yy < y || (yy == y && zz < z)) ==> #[trigger] data@[
                        idx(xx, yy, zz)] == blur_line(line_x(orig, yy, zz))[xx],
                forall|xx: int, yy: int, zz: int|
                    in_grid(xx, yy, zz) && (yy > y || (yy == y && zz >= z)) ==> #[trigger] data@[
                        idx(xx, yy, zz)] == orig[idx(xx, yy, zz)],
            decreases 34 - z,
        {
            let ghost entry = data@;
            let mut buf: Vec<u8> = Vec::new();
            let mut x: usize = 0;
            while x < 34
                invariant
                    data.len() == 39304,
                    data@ == entry,
                    y < 34,
                    z < 34,
                    x <= 34,
                    buf.len() == x,
                    forall|t: int|
                        0 <= t < x ==> #[trigger] buf@[t] == data@[idx(t, y as int, z as int)],
                decreases 34 - x,
            {
                proof {
                    lemma_idx_coords(x as int, y as int, z as int);
                }
                let k = x * 1156 + y * 34 + z;
                let v = data[k];
                buf.push(v);
                x = x + 1;
            }
            proof {
                assert(buf@ =~= line_x(entry, y as int, z as int));
                assert(line_x(entry, y as int, z as int) =~= line_x(orig, y as int, z as int));
            }
            blur_scan_line(&mut buf);
            let mut x: usize = 0;
            while x < 34
                invariant
                    data.len() == 39304,
                    y < 34,
                    z < 34,
                    x <= 34,
                    buf.len() == 34,
                    buf@ == blur_line(line_x(orig, y as int, z as int)),
                    forall|t: int|
                        0 <= t < x ==> #[trigger] data@[idx(t, y as int, z as int)] == buf@[t],
                    forall|xx: int, yy: int, zz: int|
                        in_grid(xx, yy, zz) && (yy != y || zz != z || xx >= x) ==> #[trigger] data@[
                            idx(xx, yy, zz)] == entry[idx(xx, yy, zz)],
                decreases 34 - x,
            {
                proof {
                    lemma_idx_coords(x as int, y as int, z as int);
                }
                let k = x * 1156 + y * 34 + z;
                let v = buf[x];
                data.set(k, v);
                x = x + 1;
            }
            z = z + 1;
        }
        y = y + 1;
    }
    proof {
        assert forall|i: int| 0 <= i < 39304 implies data@[i] == blur_x_spec(orig)[i] by {
            lemma_coords_idx(i);
            assert(data@[idx(coord_x(i), coord_y(i), coord_z(i))] == blur_line(
                line_x(orig, coord_y(i), coord_z(i)))[coord_x(i)]);
        }
        assert(data@ =~= blur_x_spec(orig));
    }
}

/// The Y pass: blur every scan-line along Y.
#[verifier::rlimit(100)]
pub fn blur_y(data: &mut Vec<u8>)
    requires
        old(data).len() == 39304,
    ensures
        final(data).len() == 39304,
        final(data)@ == blur_y_spec(old(data)@),
{
    let ghost orig = data@;
    let mut x: usize = 0;
    while x < 34
        invariant
            data.len() == 39304,
            orig.len() == 39304,
            orig == old(data)@,
            x <= 34,
            forall|xx: int, yy: int, zz: int|
                in_grid(xx, yy, zz) && xx < x ==> #[trigger] data@[idx(xx, yy, zz)]
                    == blur_line(line_y(orig, xx, zz))[yy],
            forall|xx: int, yy: int, zz: int|
                in_grid(xx, yy, zz) && xx >= x ==> #[trigger] data@[idx(xx, yy, zz)]
                    == orig[idx(xx, yy, zz)],
        decreases 34 - x,
    {
        let mut z: usize = 0;
        while z < 34
            invariant
                data.len() == 39304,
                orig.len() == 39304,
                x < 34,
                z <= 34,
                forall|xx: int, yy: int, zz: int|
                    in_grid(xx, yy, zz) && (xx < x || (xx == x && zz < z)) ==> #[trigger] data@[
                        idx(xx, yy, zz)] == blur_line(line_y(orig, xx, zz))[yy],
                forall|xx: int, yy: int, zz: int|
                    in_grid(xx, yy, zz) && (xx > x || (xx == x && zz >= z)) ==> #[trigger] data@[
                        idx(xx, yy, zz)] == orig[idx(xx, yy, zz)],
            decreases 34 - z,
        {
            let ghost entry = data@;
            let mut buf: Vec<u8> = Vec::new();
            let mut y: usize = 0;
            while y < 34
                invariant
                    data.len() == 39304,
                    data@ == entry,
                    x < 34,
                    z < 34,
                    y <= 34,
                    buf.len() == y,
                    forall|t: int|
                        0 <= t < y ==> #[trigger] buf@[t] == data@[idx(x as int, t, z as int)],
                decreases 34 - y,
            {
                proof {
                    lemma_idx_coords(x as int, y as int, z as int);
                }
                let k = x * 1156 + y * 34 + z;
                let v = data[k];
                buf.push(v);
                y = y + 1;
            }
            proof {
                assert(buf@ =~= line_y(entry, x as int, z as int));
                assert(line_y(entry, x as int, z as int) =~= line_y(orig, x as int, z as int));
            }
            blur_scan_line(&mut buf);
            let mut y: usize = 0;
            while y < 34
                invariant
                    data.len() == 39304,
                    x < 34,
                    z < 34,
                    y <= 34,
                    buf.len() == 34,
                    buf@ == blur_line(line_y(orig, x as int, z as int)),
                    forall|t: int|
                        0 <= t < y ==> #[trigger] data@[idx(x as int, t, z as int)] == buf@[t],
                    forall|xx: int, yy: int, zz: int|
                        in_grid(xx, yy, zz) && (xx != x || zz != z || yy >= y) ==> #[trigger] data@[
                            idx(xx, yy, zz)] == entry[idx(xx, yy, zz)],
                decreases 34 - y,
            {
                proof {
                    lemma_idx_coords(x as int, y as int, z as int);
                }
                let k = x * 1156 + y * 34 + z;
                let v = buf[y];
                data.set(k, v);
                y = y + 1;
            }
            z = z + 1;
        }
        x = x + 1;
    }
    proof {
        assert forall|i: int| 0 <= i < 39304 implies data@[i] == blur_y_spec(orig)[i] by {
            lemma_coords_idx(i);
            assert(data@[idx(coord_x(i), coord_y(i), coord_z(i))] == blur_line(
                line_y(orig, coord_x(i), coord_z(i)))[coord_y(i)]);
        }
        assert(data@ =~= blur_y_spec(orig));
    }
}

/// The Z pass: blur every scan-line along Z.
#[verifier::rlimit(100)]
pub fn blur_z(data: &mut Vec<u8>)
    requires
        old(data).len() == 39304,
    ensures
        final(data).len() == 39304,
        final(data)@ == blur_z_spec(old(data)@),
{
    let ghost orig = data@;
    let mut x: usize = 0;
    while x < 34
        invariant
            data.len() == 39304,
            orig.len() == 39304,
            orig == old(data)@,
            x <= 34,
            forall|xx: int, yy: int, zz: int|
                in_grid(xx, yy, zz) && xx < x ==> #[trigger] data@[idx(xx, yy, zz)]
                    == blur_line(line_z(orig, xx, yy))[zz],
            forall|xx: int, yy: int, zz: int|
                in_grid(xx, yy, zz) && xx >= x ==> #[trigger] data@[idx(xx, yy, zz)]
                    == orig[idx(xx, yy, zz)],
        decreases 34 - x,
    {
        let mut y: usize = 0;
        while y < 34
            invariant
                data.len() == 39304,
                orig.len() == 39304,
                x < 34,
                y <= 34,
                forall|xx: int, yy: int, zz: int|
                    in_grid(xx, yy, zz) && (xx < x || (xx == x && yy < y)) ==> #[trigger] data@[
                        idx(xx, yy, zz)] == blur_line(line_z(orig, xx, yy))[zz],
                forall|xx: int, yy: int, zz: int|
                    in_grid(xx, yy, zz) && (xx > x || (xx == x && yy >= y)) ==> #[trigger] data@[
                        idx(xx, yy, zz)] == orig[idx(xx, yy, zz)],
            decreases 34 - y,
        {
            let ghost entry = data@;
            let mut buf: Vec<u8> = Vec::new();
            let mut z: usize = 0;
            while z < 34
                invariant
                    data.len() == 39304,
                    data@ == entry,
                    x < 34,
                    y < 34,
                    z <= 34,
                    buf.len() == z,
                    forall|t: int|
                        0 <= t < z ==> #[trigger] buf@[t] == data@[idx(x as int, y as int, t)],
                decreases 34 - z,
            {
                proof {
                    lemma_idx_coords(x as int, y as int, z as int);
                }
                let k = x * 1156 + y * 34 + z;
                let v = data[k];
                buf.push(v);
                z = z + 1;
            }
            proof {
                assert(buf@ =~= line_z(entry, x as int, y as int));
                assert(line_z(entry, x as int, y as int) =~= line_z(orig, x as int, y as int));
            }
            blur_scan_line(&mut buf);
            let mut z: usize = 0;
            while z < 34
                invariant
                    data.len() == 39304,
                    x < 34,
                    y < 34,
                    z <= 34,
                    buf.len() == 34,
                    buf@ == blur_line(line_z(orig, x as int, y as int)),
                    forall|t: int|
                        0 <= t < z ==> #[trigger] data@[idx(x as int, y as int, t)] == buf@[t],
                    forall|xx: int, yy: int, zz: int|
                        in_grid(xx, yy, zz) && (xx != x || yy != y || zz >= z) ==> #[trigger] data@[
                            idx(xx, yy, zz)] == entry[idx(xx, yy, zz)],
                decreases 34 - z,
            {
                proof {
                    lemma_idx_coords(x as int, y as int, z as int);
                }
                let k = x * 1156 + y * 34 + z;
                let v = buf[z];
                data.set(k, v);
                z = z + 1;
            }
            y = y + 1;
        }
        x = x + 1;
    }
    proof {
        assert forall|i: int| 0 <= i < 39304 implies data@[i] == blur_z_spec(orig)[i] by {
            lemma_coords_idx(i);
            assert(data@[idx(coord_x(i), coord_y(i), coord_z(i))] == blur_line(
                line_z(orig, coord_x(i), coord_y(i)))[coord_z(i)]);
        }
        assert(data@ =~= blur_z_spec(orig));
    }
}

} // verus!
