use xbr::rules::{bottom_left_rule, bottom_right_rule, top_left_rule, top_right_rule};
use xbr::sampler::{pixel_at, sample};

fn numbered(width: u32, height: u32) -> Vec<u32> {
    (0..width * height).map(|i| 0x100 + i).collect()
}

#[test]
fn pixel_at_reads_row_major() {
    let image = numbered(3, 2);
    assert_eq!(pixel_at(&image, 3, 2, 0, 0), 0x100);
    assert_eq!(pixel_at(&image, 3, 2, 2, 0), 0x102);
    assert_eq!(pixel_at(&image, 3, 2, 0, 1), 0x103);
    assert_eq!(pixel_at(&image, 3, 2, 2, 1), 0x105);
}

#[test]
fn pixel_at_outside_is_zero() {
    let image = numbered(3, 2);
    assert_eq!(pixel_at(&image, 3, 2, -1, 0), 0);
    assert_eq!(pixel_at(&image, 3, 2, 0, -1), 0);
    assert_eq!(pixel_at(&image, 3, 2, 3, 0), 0);
    assert_eq!(pixel_at(&image, 3, 2, 0, 2), 0);
    assert_eq!(pixel_at(&image, 3, 2, -2, -2), 0);
    assert_eq!(pixel_at(&image, 3, 2, i64::MAX, i64::MIN), 0);
}

#[test]
fn pixel_at_empty_image_is_zero() {
    let image: Vec<u32> = Vec::new();
    assert_eq!(pixel_at(&image, 0, 0, 0, 0), 0);
    assert_eq!(pixel_at(&image, 0, 7, 0, 3), 0);
}

#[test]
fn window_layout_in_the_interior() {
    // 5x5 image whose pixel at (x, y) is 0x100 + 5 y + x; centre (2, 2)
    let image = numbered(5, 5);
    let m = sample(&image, 5, 5, 2, 2);
    let at = |x: u32, y: u32| 0x100 + 5 * y + x;
    let expected: [u32; 21] = [
        at(1, 0), at(2, 0), at(3, 0),
        at(0, 1), at(1, 1), at(2, 1), at(3, 1), at(4, 1),
        at(0, 2), at(1, 2), at(2, 2), at(3, 2), at(4, 2),
        at(0, 3), at(1, 3), at(2, 3), at(3, 3), at(4, 3),
        at(1, 4), at(2, 4), at(3, 4),
    ];
    assert_eq!(m, expected);
    assert_eq!(m[10], at(2, 2));
}

#[test]
fn window_at_the_corner_is_zero_filled() {
    let image = numbered(5, 5);
    let m = sample(&image, 5, 5, 0, 0);
    let at = |x: u32, y: u32| 0x100 + 5 * y + x;
    let expected: [u32; 21] = [
        0, 0, 0,
        0, 0, 0, 0, 0,
        0, 0, at(0, 0), at(1, 0), at(2, 0),
        0, 0, at(0, 1), at(1, 1), at(2, 1),
        0, at(0, 2), at(1, 2),
    ];
    assert_eq!(m, expected);
}

#[test]
fn window_of_a_single_pixel() {
    let image = vec![0xABCDEF];
    let m = sample(&image, 1, 1, 0, 0);
    for i in 0..21 {
        assert_eq!(m[i], if i == 10 { 0xABCDEF } else { 0 });
    }
}

#[test]
fn window_centred_outside_reads_what_is_in_reach() {
    let image = numbered(2, 2);
    let m = sample(&image, 2, 2, 3, 0);
    // only the cells two columns to the left of the centre lie in the image
    let mut expected = [0u32; 21];
    expected[8] = 0x101;
    expected[13] = 0x103;
    assert_eq!(m, expected);
}

#[test]
fn flat_window_passes_the_centre_through() {
    let m = [0x336699u32; 21];
    assert_eq!(top_left_rule(&m), 0x336699);
    assert_eq!(top_right_rule(&m), 0x336699);
    assert_eq!(bottom_left_rule(&m), 0x336699);
    assert_eq!(bottom_right_rule(&m), 0x336699);
}

#[test]
fn lone_centre_is_halved() {
    let mut m = [0u32; 21];
    m[10] = 0xFFFFFF;
    assert_eq!(top_left_rule(&m), 0x7F7F7F);
    assert_eq!(top_right_rule(&m), 0x7F7F7F);
    assert_eq!(bottom_left_rule(&m), 0x7F7F7F);
    assert_eq!(bottom_right_rule(&m), 0x7F7F7F);
}

#[test]
fn ties_favor_the_first_candidate() {
    // the centre is equally far from its left and upper neighbours, which differ
    let mut m = [0u32; 21];
    m[10] = 0x808080;
    m[9] = 0x907070;
    m[5] = 0x709070;
    // top-left: candidates 9 then 5
    assert_eq!(top_left_rule(&m), 0x887878);
    // bottom-right: candidates 11 then 15, both black and equally far
    assert_eq!(bottom_right_rule(&m), 0x404040);
    assert_eq!(top_right_rule(&m), 0x808080);
    assert_eq!(bottom_left_rule(&m), 0x808080);
}

#[test]
fn diagonal_edge_blends_with_the_nearer_neighbour() {
    // black above and to the left of a white centre, white below and to the right
    let w = 0xFFFFFFu32;
    let m: [u32; 21] = [
        0, 0, 0,
        0, 0, 0, 0, w,
        0, 0, w, w, w,
        0, w, w, w, w,
        w, w, w,
    ];
    assert_eq!(top_left_rule(&m), 0x7F7F7F);
    assert_eq!(top_right_rule(&m), w);
    assert_eq!(bottom_left_rule(&m), w);
    assert_eq!(bottom_right_rule(&m), w);
}

#[test]
fn rounding_decides_near_ties() {
    // windows on which the contrasts differ only by what rounding leaves
    let m: [u32; 21] = [
        0x01C4B0, 0x00C5B0, 0x01C4B0, 0x00C6B2, 0x01C4B0, 0x01C4B0, 0x00C5B0, 0x00C6B2,
        0x01C4B0, 0x01C4B0, 0x00C5B0, 0x01C4B0, 0x00C5B0, 0x01C4B0, 0x01C4B0, 0x01C4B0,
        0x00C6B2, 0x01C4B0, 0x00C6B2, 0x00C5B0, 0x00C6B2,
    ];
    assert_eq!(top_right_rule(&m), 0x00C4B0);
    let m: [u32; 21] = [
        0x046D60, 0x066E60, 0x046D60, 0x066E62, 0x066E62, 0x066E60, 0x066E60, 0x046D60,
        0x046D60, 0x066E60, 0x066E62, 0x066E62, 0x046D60, 0x066E62, 0x066E62, 0x066E62,
        0x066E62, 0x066E62, 0x046D60, 0x046D60, 0x066E62,
    ];
    assert_eq!(top_left_rule(&m), 0x066E61);
    let m: [u32; 21] = [
        0xEDE012, 0xEDE212, 0xECE313, 0xECE313, 0xEDE012, 0xECE313, 0xEDE212, 0xEDE212,
        0xEDE012, 0xEDE212, 0xEDE012, 0xEDE012, 0xEDE212, 0xEDE012, 0xEDE012, 0xECE313,
        0xEDE212, 0xEDE012, 0xECE313, 0xEDE012, 0xEDE012,
    ];
    assert_eq!(top_left_rule(&m), 0xEDE112);
}
