//! Proved properties of the blur model.
//!
//! The central result is that the interleaved two-carry sweep over a
//! scan-line computes exactly the decay envelope of the line: every position
//! ends at the maximum, over all positions `q`, of `sample(q)` minus the
//! distance to `q`. Bound preservation and the single-source decay profile
//! follow from it.

use vstd::prelude::*;
use crate::model::{vmax, decay, sweep, blur_line, line_x, line_y, line_z, blur_x_spec,
    blur_y_spec, blur_z_spec, occlude_spec, all_at_most};
use crate::geom::{idx, coord_x, coord_y, coord_z, in_grid, lemma_idx_coords, lemma_coords_idx};

verus! {

/// The sweep never changes the length of the line.
pub proof fn lemma_sweep_len(s: Seq<u8>, a: u8, b: u8, i: nat)
    ensures
        sweep(s, a, b, i).len() == s.len(),
    decreases s.len() - i,
{
    if i < s.len() {
        let j = s.len() - 1 - i;
        let a1 = vmax(a as int, s[i as int] as int) as u8;
        let s1 = s.update(i as int, a1);
        let b1 = vmax(b as int, s1[j as int] as int) as u8;
        let s2 = s1.update(j as int, b1);
        lemma_sweep_len(s2, decay(a1 as int) as u8, decay(b1 as int) as u8, i + 1);
    }
}

/// A bound on every sample and on both carries is a bound on every sample
/// the sweep leaves behind.
pub proof fn lemma_sweep_bound(s: Seq<u8>, a: u8, b: u8, i: nat, m: int)
    requires
        a as int <= m,
        b as int <= m,
        forall|p: int| 0 <= p < s.len() ==> #[trigger] s[p] as int <= m,
    ensures
        forall|p: int| 0 <= p < s.len() ==> #[trigger] sweep(s, a, b, i)[p] as int <= m,
    decreases s.len() - i,
{
    lemma_sweep_len(s, a, b, i);
    if i < s.len() {
        let j = s.len() - 1 - i;
        let a1 = vmax(a as int, s[i as int] as int) as u8;
        let s1 = s.update(i as int, a1);
        let b1 = vmax(b as int, s1[j as int] as int) as u8;
        let s2 = s1.update(j as int, b1);
        assert(forall|p: int| 0 <= p < s2.len() ==> #[trigger] s2[p] as int <= m);
        lemma_sweep_bound(s2, decay(a1 as int) as u8, decay(b1 as int) as u8, i + 1, m);
        assert(sweep(s, a, b, i) == sweep(s2, decay(a1 as int) as u8, decay(b1 as int) as u8,
            i + 1));
    }
}

/// Blurring a scan-line introduces no sample above the line's old bound.
pub proof fn lemma_blur_line_bound(s: Seq<u8>, m: int)
    requires
        m >= 0,
        forall|p: int| 0 <= p < s.len() ==> #[trigger] s[p] as int <= m,
    ensures
        blur_line(s).len() == s.len(),
        forall|p: int| 0 <= p < s.len() ==> #[trigger] blur_line(s)[p] as int <= m,
{
    lemma_sweep_len(s, 0, 0, 0);
    lemma_sweep_bound(s, 0, 0, 0, m);
}

/// The X pass preserves any non-negative bound on the samples.
pub proof fn lemma_blur_x_spec_bound(s: Seq<u8>, m: int)
    requires
        s.len() == 39304,
        m >= 0,
        all_at_most(s, m),
    ensures
        all_at_most(blur_x_spec(s), m),
{
    assert forall|i: int| 0 <= i < 39304 implies #[trigger] blur_x_spec(s)[i] as int <= m by {
        lemma_coords_idx(i);
        let line = line_x(s, coord_y(i), coord_z(i));
        assert forall|t: int| 0 <= t < 34 implies #[trigger] line[t] as int <= m by {
            lemma_idx_coords(t, coord_y(i), coord_z(i));
        }
        lemma_blur_line_bound(line, m);
    }
}

/// The Y pass preserves any non-negative bound on the samples.
pub proof fn lemma_blur_y_spec_bound(s: Seq<u8>, m: int)
    requires
        s.len() == 39304,
        m >= 0,
        all_at_most(s, m),
    ensures
        all_at_most(blur_y_spec(s), m),
{
    assert forall|i: int| 0 <= i < 39304 implies #[trigger] blur_y_spec(s)[i] as int <= m by {
        lemma_coords_idx(i);
        let line = line_y(s, coord_x(i), coord_z(i));
        assert forall|t: int| 0 <= t < 34 implies #[trigger] line[t] as int <= m by {
            lemma_idx_coords(coord_x(i), t, coord_z(i));
        }
        lemma_blur_line_bound(line, m);
    }
}

/// The Z pass preserves any non-negative bound on the samples.
pub proof fn lemma_blur_z_spec_bound(s: Seq<u8>, m: int)
    requires
        s.len() == 39304,
        m >= 0,
        all_at_most(s, m),
    ensures
        all_at_most(blur_z_spec(s), m),
{
    assert forall|i: int| 0 <= i < 39304 implies #[trigger] blur_z_spec(s)[i] as int <= m by {
        lemma_coords_idx(i);
        let line = line_z(s, coord_x(i), coord_y(i));
        assert forall|t: int| 0 <= t < 34 implies #[trigger] line[t] as int <= m by {
            lemma_idx_coords(coord_x(i), coord_y(i), t);
        }
        lemma_blur_line_bound(line, m);
    }
}

/// Distance between two positions on a scan-line.
pub open spec fn dist(p: int, q: int) -> int {
    if p >= q {
        p - q
    } else {
        q - p
    }
}

/// What the sample at `q` contributes to position `p` once it has decayed
/// on the way over: the sample minus the distance.
pub open spec fn gain(s: Seq<u8>, p: int, q: int) -> int {
    s[q] - dist(p, q)
}

/// Largest contribution to position `p` among the samples at positions
/// below `m`; a sentinel well under any real contribution when there are
/// none.
pub open spec fn env_upto(s: Seq<u8>, p: int, m: nat) -> int
    decreases m,
{
    if m == 0 {
        -1000
    } else {
        vmax(env_upto(s, p, (m - 1) as nat), gain(s, p, m - 1))
    }
}

/// The decay envelope of a scan-line at position `p`: the largest
/// contribution any sample of the line makes there.
pub open spec fn envelope(s: Seq<u8>, p: int) -> int {
    env_upto(s, p, s.len())
}

/// The envelope dominates every single contribution.
pub proof fn lemma_env_upto_ge(s: Seq<u8>, p: int, m: nat, q: int)
    requires
        0 <= q < m,
    ensures
        env_upto(s, p, m) >= gain(s, p, q),
    decreases m,
{
    if q < m - 1 {
        lemma_env_upto_ge(s, p, (m - 1) as nat, q);
    }
}

/// A bound on every contribution bounds the envelope.
pub proof fn lemma_env_upto_le(s: Seq<u8>, p: int, m: nat, bound: int)
    requires
        bound >= -1000,
        forall|q: int| 0 <= q < m ==> #[trigger] gain(s, p, q) <= bound,
    ensures
        env_upto(s, p, m) <= bound,
    decreases m,
{
    if m > 0 {
        lemma_env_upto_le(s, p, (m - 1) as nat, bound);
    }
}

/// The envelope at `p` dominates the contribution of the sample at `q`.
pub proof fn lemma_envelope_ge(s: Seq<u8>, p: int, q: int)
    requires
        0 <= q < s.len(),
    ensures
        envelope(s, p) >= gain(s, p, q),
{
    lemma_env_upto_ge(s, p, s.len(), q);
}

/// Moving one position changes the envelope by at most the distance moved.
pub proof fn lemma_env_upto_lipschitz(s: Seq<u8>, p1: int, p2: int, m: nat)
    ensures
        env_upto(s, p1, m) >= env_upto(s, p2, m) - dist(p1, p2),
    decreases m,
{
    if m > 0 {
        lemma_env_upto_lipschitz(s, p1, p2, (m - 1) as nat);
    }
}

/// Moving one position changes the envelope by at most the distance moved.
pub proof fn lemma_envelope_lipschitz(s: Seq<u8>, p1: int, p2: int)
    ensures
        envelope(s, p1) >= envelope(s, p2) - dist(p1, p2),
{
    lemma_env_upto_lipschitz(s, p1, p2, s.len());
}

/// The sweep, run to the end from any intermediate state, finishes every
/// position at the envelope of the line the sweep started from.
///
/// `s0` is the line as it stood when the sweep began; `s`, `a`, `b` and `i`
/// are the state reached after `i` steps. The hypotheses say what the first
/// `i` steps have achieved: samples have only grown and never passed the
/// envelope, each carry is below the envelope at the position it visits
/// next, each carry dominates the decayed contributions of the samples it
/// has passed, and each already-visited position dominates the decayed
/// contributions from its own side of the line.
pub proof fn lemma_sweep_envelope(s0: Seq<u8>, s: Seq<u8>, a: u8, b: u8, i: nat)
    requires
        s0.len() == s.len(),
        i <= s.len(),
        forall|p: int| 0 <= p < s.len() ==> s0[p] <= #[trigger] s[p],
        forall|p: int| 0 <= p < s.len() ==> #[trigger] s[p] as int <= envelope(s0, p),
        i < s.len() ==> a as int <= envelope(s0, i as int),
        i < s.len() ==> b as int <= envelope(s0, s.len() - 1 - i),
        forall|q: int| 0 <= q < i ==> a as int >= #[trigger] s0[q] - (i - q),
        forall|q: int|
            s.len() - i <= q < s.len() ==> b as int >= #[trigger] s0[q] - (q - (s.len() - 1 - i)),
        forall|p: int, q: int|
            0 <= q <= p < i ==> #[trigger] s[p] as int >= #[trigger] s0[q] - (p - q),
        forall|p: int, q: int|
            s.len() - i <= p <= q < s.len() ==> #[trigger] s[p] as int >= #[trigger] s0[q] - (q
                - p),
    ensures
        forall|p: int|
            0 <= p < s.len() ==> #[trigger] sweep(s, a, b, i)[p] as int == envelope(s0, p),
    decreases s.len() - i,
{
    let n = s.len() as int;
    if i >= s.len() {
        assert forall|p: int| 0 <= p < n implies #[trigger] sweep(s, a, b, i)[p] as int
            == envelope(s0, p) by {
            assert forall|q: int| 0 <= q < n implies #[trigger] gain(s0, p, q) <= s[p] as int by {
                if q <= p {
                    assert(s[p] as int >= s0[q] - (p - q));
                } else {
                    assert(s[p] as int >= s0[q] - (q - p));
                }
            }
            lemma_env_upto_le(s0, p, s0.len(), s[p] as int);
            assert(envelope(s0, p) <= s[p] as int);
            assert(s[p] as int <= envelope(s0, p));
        }
    } else {
        let j = n - 1 - i;
        let a1 = vmax(a as int, s[i as int] as int) as u8;
        let s1 = s.update(i as int, a1);
        let b1 = vmax(b as int, s1[j] as int) as u8;
        let s2 = s1.update(j, b1);
        let a2 = decay(a1 as int) as u8;
        let b2 = decay(b1 as int) as u8;

        // the step raises the two visited samples and keeps them under the
        // envelope
        assert(s[i as int] as int <= envelope(s0, i as int));
        assert(a1 as int <= envelope(s0, i as int));
        assert(a1 >= a && a1 as int >= s[i as int] as int);
        assert(s1[j] as int <= envelope(s0, j));
        assert(b1 as int <= envelope(s0, j));
        assert(b1 >= b && b1 as int >= s1[j] as int);
        assert(forall|p: int| 0 <= p < n ==> s[p] <= #[trigger] s2[p]);
        assert(forall|p: int| 0 <= p < n ==> s0[p] <= #[trigger] s2[p]);
        assert(forall|p: int| 0 <= p < n ==> #[trigger] s2[p] as int <= envelope(s0, p));
        assert(s2[i as int] as int >= a1 as int);

        // the decayed carries stay under the envelope one position over
        if i + 1 < s.len() {
            lemma_envelope_lipschitz(s0, i as int + 1, i as int);
            lemma_envelope_ge(s0, i as int + 1, i as int + 1);
            assert(a2 as int <= envelope(s0, i as int + 1));
            lemma_envelope_lipschitz(s0, j - 1, j);
            lemma_envelope_ge(s0, j - 1, j - 1);
            assert(b2 as int <= envelope(s0, j - 1));
        }

        // the decayed carries still dominate the contributions they carry
        assert forall|q: int| 0 <= q < i + 1 implies a2 as int >= #[trigger] s0[q] - (i + 1
            - q) by {
            if q < i {
                assert(a as int >= s0[q] - (i - q));
            } else {
                assert(a1 as int >= s[i as int] as int >= s0[i as int] as int);
            }
        }
        assert forall|q: int| n - (i + 1) <= q < n implies b2 as int >= #[trigger] s0[q] - (q - (n
            - 1 - (i + 1))) by {
            if q >= n - i {
                assert(b as int >= s0[q] - (q - j));
            } else {
                assert(q == j);
                assert(b1 as int >= s1[j] as int >= s0[j] as int);
            }
        }

        // the two visited positions now dominate their own side
        assert forall|p: int, q: int| 0 <= q <= p < i + 1 implies #[trigger] s2[p] as int
            >= #[trigger] s0[q] - (p - q) by {
            if p < i {
                assert(s[p] as int >= s0[q] - (p - q));
            } else {
                if q < i {
                    assert(a as int >= s0[q] - (i - q));
                    assert(a1 >= a);
                } else {
                    assert(a1 as int >= s[i as int] as int >= s0[i as int] as int);
                }
                assert(s2[i as int] as int >= a1 as int);
            }
        }
        assert forall|p: int, q: int| n - (i + 1) <= p <= q < n implies #[trigger] s2[p] as int
            >= #[trigger] s0[q] - (q - p) by {
            if p > j {
                assert(s[p] as int >= s0[q] - (q - p));
            } else {
                if q > j {
                    assert(b as int >= s0[q] - (q - j));
                    assert(b1 >= b);
                } else {
                    assert(b1 as int >= s1[j] as int >= s0[j] as int);
                }
                assert(s2[j] == b1);
            }
        }

        lemma_sweep_envelope(s0, s2, a2, b2, i + 1);
        assert(sweep(s, a, b, i) == sweep(s2, a2, b2, i + 1));
    }
}

/// Every position of a blurred scan-line holds exactly the decay envelope
/// of the line it came from: the largest sample of the old line minus its
/// distance, over all positions.
pub proof fn lemma_blur_line_envelope(s: Seq<u8>)
    ensures
        blur_line(s).len() == s.len(),
        forall|p: int| 0 <= p < s.len() ==> #[trigger] blur_line(s)[p] as int == envelope(s, p),
{
    lemma_sweep_len(s, 0, 0, 0);
    assert forall|p: int| 0 <= p < s.len() implies #[trigger] s[p] as int <= envelope(s, p) by {
        lemma_envelope_ge(s, p, p);
    }
    if s.len() > 0 {
        lemma_envelope_ge(s, 0, 0);
        lemma_envelope_ge(s, s.len() - 1, s.len() - 1);
    }
    lemma_sweep_envelope(s, s, 0, 0, 0);
}

/// A line that is dark except for one sample decays away from that sample
/// by exactly one unit per step: blurring it puts `max(v - d, 0)` at the
/// position `d` steps from the source.
pub proof fn lemma_single_source_line(s: Seq<u8>, c: int, v: u8)
    requires
        0 <= c < s.len(),
        s[c] == v,
        forall|q: int| 0 <= q < s.len() && q != c ==> #[trigger] s[q] == 0,
    ensures
        forall|p: int|
            0 <= p < s.len() ==> #[trigger] blur_line(s)[p] as int == vmax(v as int - dist(p, c),
                0),
{
    lemma_blur_line_envelope(s);
    assert forall|p: int| 0 <= p < s.len() implies envelope(s, p) == vmax(v as int - dist(p, c),
        0) by {
        let bound = vmax(v as int - dist(p, c), 0);
        lemma_envelope_ge(s, p, c);
        lemma_envelope_ge(s, p, p);
        assert(envelope(s, p) >= bound);
        assert forall|q: int| 0 <= q < s.len() implies #[trigger] gain(s, p, q) <= bound by {
            if q != c {
                assert(s[q] == 0);
            }
        }
        lemma_env_upto_le(s, p, s.len(), bound);
    }
}

/// The X pass on a field that is dark except for one voxel: along the
/// source's own X scan-line the light decays by exactly one unit per voxel
/// of distance from the source.
pub proof fn lemma_x_pass_single_source(s: Seq<u8>, cx: int, cy: int, cz: int, v: u8)
    requires
        s.len() == 39304,
        in_grid(cx, cy, cz),
        s[idx(cx, cy, cz)] == v,
        forall|k: int| 0 <= k < 39304 && k != idx(cx, cy, cz) ==> #[trigger] s[k] == 0,
    ensures
        forall|x: int|
            0 <= x < 34 ==> #[trigger] blur_x_spec(s)[idx(x, cy, cz)] as int == vmax(
                v as int - dist(x, cx), 0),
        forall|x: int, yy: int, zz: int|
            in_grid(x, yy, zz) && (yy != cy || zz != cz) ==> #[trigger] blur_x_spec(s)[idx(x, yy,
                zz)] == 0,
{
    let line = line_x(s, cy, cz);
    lemma_idx_coords(cx, cy, cz);
    assert(line[cx] == v);
    assert forall|q: int| 0 <= q < 34 && q != cx implies #[trigger] line[q] == 0 by {
        lemma_idx_coords(q, cy, cz);
        assert(idx(q, cy, cz) != idx(cx, cy, cz));
    }
    lemma_single_source_line(line, cx, v);
    assert forall|x: int| 0 <= x < 34 implies #[trigger] blur_x_spec(s)[idx(x, cy, cz)] as int
        == vmax(v as int - dist(x, cx), 0) by {
        lemma_idx_coords(x, cy, cz);
        assert(blur_x_spec(s)[idx(x, cy, cz)] == blur_line(line)[x]);
    }
    assert forall|x: int, yy: int, zz: int|
        in_grid(x, yy, zz) && (yy != cy || zz != cz) implies #[trigger] blur_x_spec(s)[idx(x, yy,
        zz)] == 0 by {
        let dark = line_x(s, yy, zz);
        assert forall|q: int| 0 <= q < 34 implies #[trigger] dark[q] == 0 by {
            lemma_idx_coords(q, yy, zz);
            assert(idx(q, yy, zz) != idx(cx, cy, cz));
        }
        lemma_single_source_line(dark, 0, dark[0]);
        lemma_idx_coords(x, yy, zz);
        assert(blur_x_spec(s)[idx(x, yy, zz)] == blur_line(dark)[x]);
        assert(blur_line(dark)[x] as int == vmax(dark[0] as int - dist(x, 0), 0));
    }
}

/// Running the X pass and then the Y pass leaves at `(x, y, z)` at most the
/// two-axis envelope reached by running Y and then X.
proof fn lemma_cross_envelope_le(s: Seq<u8>, x: int, y: int, z: int)
    requires
        s.len() == 39304,
        in_grid(x, y, z),
    ensures
        envelope(line_y(blur_x_spec(s), x, z), y) <= envelope(line_x(blur_y_spec(s), y, z), x),
{
    let t1 = blur_x_spec(s);
    let t2 = blur_y_spec(s);
    let ly = line_y(t1, x, z);
    let lx = line_x(t2, y, z);
    let rhs = envelope(lx, x);

    // the Y-then-X side dominates every doubly decayed sample
    assert forall|qx: int, qy: int| 0 <= qx < 34 && 0 <= qy < 34 implies rhs >= #[trigger] s[idx(
        qx, qy, z)] - dist(x, qx) - dist(y, qy) by {
        lemma_idx_coords(qx, y, z);
        lemma_idx_coords(qx, qy, z);
        lemma_blur_line_envelope(line_y(s, qx, z));
        assert(lx[qx] as int == envelope(line_y(s, qx, z), y));
        lemma_envelope_ge(lx, x, qx);
        lemma_envelope_ge(line_y(s, qx, z), y, qy);
        assert(line_y(s, qx, z)[qy] == s[idx(qx, qy, z)]);
    }
    lemma_idx_coords(x, y, z);
    assert(rhs >= s[idx(x, y, z)] - dist(x, x) - dist(y, y));
    assert(rhs >= 0);

    // so it bounds every contribution of the X-then-Y side
    assert forall|qy: int| 0 <= qy < 34 implies #[trigger] gain(ly, y, qy) <= rhs by {
        lemma_idx_coords(x, qy, z);
        lemma_blur_line_envelope(line_x(s, qy, z));
        assert(ly[qy] as int == envelope(line_x(s, qy, z), x));
        assert forall|qx: int| 0 <= qx < 34 implies #[trigger] gain(line_x(s, qy, z), x, qx)
            <= rhs + dist(y, qy) by {
            lemma_idx_coords(qx, qy, z);
            assert(line_x(s, qy, z)[qx] == s[idx(qx, qy, z)]);
            assert(rhs >= s[idx(qx, qy, z)] - dist(x, qx) - dist(y, qy));
        }
        lemma_env_upto_le(line_x(s, qy, z), x, 34nat, rhs + dist(y, qy));
    }
    lemma_env_upto_le(ly, y, 34nat, rhs);
}

/// Running the Y pass and then the X pass leaves at `(x, y, z)` at most the
/// two-axis envelope reached by running X and then Y.
proof fn lemma_cross_envelope_ge(s: Seq<u8>, x: int, y: int, z: int)
    requires
        s.len() == 39304,
        in_grid(x, y, z),
    ensures
        envelope(line_x(blur_y_spec(s), y, z), x) <= envelope(line_y(blur_x_spec(s), x, z), y),
{
    let t1 = blur_x_spec(s);
    let t2 = blur_y_spec(s);
    let ly = line_y(t1, x, z);
    let lx = line_x(t2, y, z);
    let rhs = envelope(ly, y);

    assert forall|qx: int, qy: int| 0 <= qx < 34 && 0 <= qy < 34 implies rhs >= #[trigger] s[idx(
        qx, qy, z)] - dist(x, qx) - dist(y, qy) by {
        lemma_idx_coords(x, qy, z);
        lemma_idx_coords(qx, qy, z);
        lemma_blur_line_envelope(line_x(s, qy, z));
        assert(ly[qy] as int == envelope(line_x(s, qy, z), x));
        lemma_envelope_ge(ly, y, qy);
        lemma_envelope_ge(line_x(s, qy, z), x, qx);
        assert(line_x(s, qy, z)[qx] == s[idx(qx, qy, z)]);
    }
    lemma_idx_coords(x, y, z);
    assert(rhs >= s[idx(x, y, z)] - dist(x, x) - dist(y, y));
    assert(rhs >= 0);

    assert forall|qx: int| 0 <= qx < 34 implies #[trigger] gain(lx, x, qx) <= rhs by {
        lemma_idx_coords(qx, y, z);
        lemma_blur_line_envelope(line_y(s, qx, z));
        assert(lx[qx] as int == envelope(line_y(s, qx, z), y));
        assert forall|qy: int| 0 <= qy < 34 implies #[trigger] gain(line_y(s, qx, z), y, qy)
            <= rhs + dist(x, qx) by {
            lemma_idx_coords(qx, qy, z);
            assert(line_y(s, qx, z)[qy] == s[idx(qx, qy, z)]);
            assert(rhs >= s[idx(qx, qy, z)] - dist(x, qx) - dist(y, qy));
        }
        lemma_env_upto_le(line_y(s, qx, z), y, 34nat, rhs + dist(x, qx));
    }
    lemma_env_upto_le(lx, x, 34nat, rhs);
}

/// The X and Y passes commute. Each pass sets every sample to the decay
/// envelope of its scan-line, so either order reaches, at every voxel, the
/// same two-axis envelope: the largest value, over the voxel's XY plane, of
/// a sample minus the sum of the X and Y distances to it.
pub proof fn lemma_xy_passes_commute(s: Seq<u8>)
    requires
        s.len() == 39304,
    ensures
        blur_y_spec(blur_x_spec(s)) == blur_x_spec(blur_y_spec(s)),
{
    let t1 = blur_x_spec(s);
    let t2 = blur_y_spec(s);
    assert forall|i: int| 0 <= i < 39304 implies blur_y_spec(t1)[i] == blur_x_spec(t2)[i] by {
        lemma_coords_idx(i);
        let x = coord_x(i);
        let y = coord_y(i);
        let z = coord_z(i);
        let ly = line_y(t1, x, z);
        let lx = line_x(t2, y, z);
        lemma_blur_line_envelope(ly);
        lemma_blur_line_envelope(lx);
        assert(blur_y_spec(t1)[i] as int == envelope(ly, y));
        assert(blur_x_spec(t2)[i] as int == envelope(lx, x));
        lemma_cross_envelope_le(s, x, y, z);
        lemma_cross_envelope_ge(s, x, y, z);
    }
    assert(blur_y_spec(t1) =~= blur_x_spec(t2));
}

/// The occlusion pass never raises a sample, so it preserves any bound.
pub proof fn lemma_occlude_spec_bound(light: Seq<u8>, blocks: Seq<u8>, m: int)
    requires
        m >= 0,
        all_at_most(light, m),
    ensures
        all_at_most(occlude_spec(light, blocks), m),
{
}

} // verus!
