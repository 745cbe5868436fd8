//! The pipeline entry point.

use vstd::prelude::*;
use crate::model::{blur_x_spec, blur_y_spec, blur_z_spec, pipeline_spec, all_at_most};
use crate::blur::{blur_x, blur_y, blur_z};
use crate::occlusion::ambient_occlusion;
use crate::laws::{lemma_blur_x_spec_bound, lemma_blur_y_spec_bound, lemma_blur_z_spec_bound,
    lemma_occlude_spec_bound};

verus! {

/// Run the four stages in order: the X, Y and Z decay passes, then the
/// occlusion pass. The blurred, occlusion-adjusted field replaces the
/// light buffer's contents; the block buffer is only read.
///
/// Both buffers must hold exactly 34*34*34 samples, and every light sample
/// must lie in `[0, 127]`; the result then lies in `[0, 127]` as well.
pub fn finish_light(light: &mut Vec<u8>, blocks: &Vec<u8>)
    requires
        old(light).len() == crate::VOLUME,
        blocks.len() == crate::VOLUME,
        all_at_most(old(light)@, 127),
    ensures
        final(light).len() == crate::VOLUME,
        final(light)@ == pipeline_spec(old(light)@, blocks@),
        all_at_most(final(light)@, 127),
{
    blur_x(light);
    blur_y(light);
    blur_z(light);
    ambient_occlusion(light, blocks);
    proof {
        let s0 = old(light)@;
        lemma_blur_x_spec_bound(s0, 127);
        lemma_blur_y_spec_bound(blur_x_spec(s0), 127);
        lemma_blur_z_spec_bound(blur_y_spec(blur_x_spec(s0)), 127);
        lemma_occlude_spec_bound(blur_z_spec(blur_y_spec(blur_x_spec(s0))), blocks@, 127);
    }
}

} // verus!
