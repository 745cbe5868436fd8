//! The occlusion pass: solid blocks shadow themselves.

use vstd::prelude::*;
use crate::model::occlude_spec;

verus! {

/// Halve the light at every voxel whose block sample is non-zero; leave the
/// light at every other voxel unchanged. The block buffer is only read.
pub fn ambient_occlusion(light: &mut Vec<u8>, blocks: &Vec<u8>)
    requires
        old(light).len() == crate::VOLUME,
        blocks.len() == crate::VOLUME,
    ensures
        final(light).len() == crate::VOLUME,
        final(light)@ == occlude_spec(old(light)@, blocks@),
        forall|i: int|
            0 <= i < 39304 && blocks@[i] != 0 ==> #[trigger] final(light)@[i] as int == (old(
                light)@[i] as int) / 2,
        forall|i: int|
            0 <= i < 39304 && blocks@[i] == 0 ==> #[trigger] final(light)@[i] == old(light)@[i],
{
    let ghost orig = light@;
    let mut off: usize = 0;
    while off < 39304
        invariant
            light.len() == 39304,
            blocks.len() == crate::VOLUME,
            orig.len() == 39304,
            orig == old(light)@,
            off <= 39304,
            forall|i: int| 0 <= i < off ==> #[trigger] light@[i] == occlude_spec(orig, blocks@)[i],
            forall|i: int| off <= i < 39304 ==> #[trigger] light@[i] == orig[i],
        decreases 39304 - off,
    {
        if blocks[off] != 0 {
            let v = light[off] / 2;
            light.set(off, v);
        }
        off = off + 1;
    }
    proof {
        assert(light@ =~= occlude_spec(orig, blocks@));
    }
}

} // verus!
