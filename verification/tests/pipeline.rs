use voxel_light::blur::{blur_x, blur_y, blur_z};
use voxel_light::occlusion::ambient_occlusion;
use voxel_light::pipeline::finish_light;

const VOL: usize = 34 * 34 * 34;

fn vidx(x: usize, y: usize, z: usize) -> usize {
    x * 34 * 34 + y * 34 + z
}

#[test]
fn empty_world_stays_dark() {
    let mut light = vec![0u8; VOL];
    let blocks = vec![0u8; VOL];
    finish_light(&mut light, &blocks);
    assert!(light.iter().all(|&v| v == 0));
}

#[test]
fn saturated_field_is_unchanged() {
    let mut light = vec![127u8; VOL];
    let blocks = vec![0u8; VOL];
    finish_light(&mut light, &blocks);
    assert!(light.iter().all(|&v| v == 127));
}

#[test]
fn x_pass_decays_from_single_source() {
    let mut light = vec![0u8; VOL];
    light[vidx(16, 16, 16)] = 100;
    blur_x(&mut light);
    for k in 0..=17usize {
        assert_eq!(light[vidx(16 + k, 16, 16)], (100 - k) as u8);
    }
    for k in 0..=16usize {
        assert_eq!(light[vidx(16 - k, 16, 16)], (100 - k) as u8);
    }
    // off the source's own scan-line the X pass lights nothing up
    assert_eq!(light[vidx(16, 17, 16)], 0);
    assert_eq!(light[vidx(16, 16, 15)], 0);
    assert_eq!(light[vidx(0, 15, 16)], 0);
}

#[test]
fn x_pass_takes_strongest_decayed_source() {
    let mut light = vec![0u8; VOL];
    light[vidx(0, 2, 3)] = 5;
    light[vidx(5, 2, 3)] = 3;
    blur_x(&mut light);
    for x in 0..34i32 {
        let a = 5 - x;
        let b = 3 - (x - 5).abs();
        let want = a.max(b).max(0) as u8;
        assert_eq!(light[vidx(x as usize, 2, 3)], want);
    }
}

#[test]
fn source_on_halo_corner_decays_inward() {
    let mut light = vec![0u8; VOL];
    light[vidx(0, 0, 0)] = 20;
    blur_x(&mut light);
    for x in 0..34usize {
        let want = if x < 20 {
            (20 - x) as u8
        } else {
            0
        };
        assert_eq!(light[vidx(x, 0, 0)], want);
    }
}

#[test]
fn x_and_y_passes_commute() {
    let mut one = vec![0u8; VOL];
    for i in 0..VOL {
        one[i] = ((i * 41 + 3) % 128) as u8;
    }
    let mut other = one.clone();
    blur_x(&mut one);
    blur_y(&mut one);
    blur_y(&mut other);
    blur_x(&mut other);
    assert_eq!(one, other);
}

#[test]
fn occlusion_halves_solid_voxels_only() {
    let mut pre = vec![0u8; VOL];
    for i in 0..VOL {
        pre[i] = ((i * 37) % 128) as u8;
    }
    let mut blocks = vec![0u8; VOL];
    for i in 0..VOL {
        if i % 3 == 0 {
            blocks[i] = 9;
        }
    }
    let mut light = pre.clone();
    ambient_occlusion(&mut light, &blocks);
    for i in 0..VOL {
        if blocks[i] != 0 {
            assert_eq!(light[i], pre[i] / 2);
        } else {
            assert_eq!(light[i], pre[i]);
        }
    }
}

#[test]
fn pipeline_is_passes_then_occlusion() {
    let mut light = vec![0u8; VOL];
    for i in 0..VOL {
        light[i] = ((i * 53) % 128) as u8;
    }
    let mut blocks = vec![0u8; VOL];
    for i in 0..VOL {
        if i % 7 == 0 {
            blocks[i] = 2;
        }
    }
    let mut manual = light.clone();
    blur_x(&mut manual);
    blur_y(&mut manual);
    blur_z(&mut manual);
    let pre = manual.clone();
    ambient_occlusion(&mut manual, &blocks);
    finish_light(&mut light, &blocks);
    assert_eq!(light, manual);
    for i in 0..VOL {
        if blocks[i] != 0 {
            assert_eq!(light[i], pre[i] / 2);
        } else {
            assert_eq!(light[i], pre[i]);
        }
    }
}

#[test]
fn output_stays_in_range() {
    let mut light = vec![0u8; VOL];
    for i in 0..VOL {
        light[i] = ((i * 31 + 5) % 128) as u8;
    }
    let mut blocks = vec![0u8; VOL];
    for i in 0..VOL {
        if i % 2 == 0 {
            blocks[i] = 255;
        }
    }
    finish_light(&mut light, &blocks);
    assert!(light.iter().all(|&v| v <= 127));
}

#[test]
fn full_pipeline_single_source() {
    let mut light = vec![0u8; VOL];
    light[vidx(16, 16, 16)] = 100;
    let blocks = vec![0u8; VOL];
    finish_light(&mut light, &blocks);
    // the three exact per-axis decays compose into decay by taxicab distance
    let probes = [
        (16usize, 16usize, 16usize),
        (17, 16, 16),
        (16, 20, 16),
        (10, 16, 30),
        (0, 0, 0),
        (33, 33, 33),
    ];
    for &(x, y, z) in probes.iter() {
        let d = (x as i32 - 16).abs() + (y as i32 - 16).abs() + (z as i32 - 16).abs();
        let want = (100 - d).max(0) as u8;
        assert_eq!(light[vidx(x, y, z)], want);
    }
}
