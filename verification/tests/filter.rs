use xbr::codec::{explode_rgb, implode_rgb};
use xbr::{apply, color_u8_to_u32, get_buffer_for_size};

fn upscale(image: &[u32], width: u32, height: u32) -> Vec<u32> {
    let (mut out, out_width, out_height) = get_buffer_for_size(width, height);
    assert_eq!(out_width, 2 * width);
    assert_eq!(out_height, 2 * height);
    apply(&mut out[..], image, width, height);
    out
}

#[test]
fn four_colors() {
    let image = [0xFF0000, 0x00FF00, 0x0000FF, 0xFFFFFF];
    let out = upscale(&image, 2, 2);
    assert_eq!(out.len(), 16);
    let expected: [u32; 16] = [
        0x7F0000, 0xFF0000, 0x007F00, 0x007F00,
        0x7F0000, 0xFF0000, 0x7FFF7F, 0x00FF00,
        0x0000FF, 0x7F007F, 0xFFFFFF, 0x7FFF7F,
        0x00007F, 0x0000FF, 0x7F7FFF, 0x7F7F7F,
    ];
    assert_eq!(&out[..], &expected[..]);
}

#[test]
fn four_colors_inner_pixels() {
    // the four destination pixels around the middle of the image, one of each
    // source pixel's block
    let image = [0xFF0000, 0x00FF00, 0x0000FF, 0xFFFFFF];
    let out = upscale(&image, 2, 2);
    assert_eq!(out[5], 0xFF0000);
    assert_eq!(out[6], 0x7FFF7F);
    assert_eq!(out[9], 0x7F007F);
    assert_eq!(out[10], 0xFFFFFF);
}

#[test]
fn single_black_pixel_stays() {
    assert_eq!(upscale(&[0], 1, 1), vec![0, 0, 0, 0]);
}

#[test]
fn single_black_pixel_keeps_its_high_bits() {
    let v = 0xAB00_0000;
    assert_eq!(upscale(&[v], 1, 1), vec![v, v, v, v]);
}

#[test]
fn single_bright_pixel_is_halved() {
    assert_eq!(upscale(&[0xFFFFFF], 1, 1), vec![0x7F7F7F; 4]);
    assert_eq!(upscale(&[0x102030], 1, 1), vec![0x081018; 4]);
    assert_eq!(upscale(&[0x000001], 1, 1), vec![0x000000; 4]);
}

#[test]
fn uniform_black_image_stays() {
    let image = vec![0u32; 12];
    assert_eq!(upscale(&image, 4, 3), vec![0u32; 48]);
}

#[test]
fn uniform_image_keeps_its_interior() {
    let c = 0x336699;
    let image = vec![c; 25];
    let out = upscale(&image, 5, 5);
    assert_eq!(out.len(), 100);
    // the block of the source pixel (2, 2)
    assert_eq!(out[4 * 10 + 4], c);
    assert_eq!(out[4 * 10 + 5], c);
    assert_eq!(out[5 * 10 + 4], c);
    assert_eq!(out[5 * 10 + 5], c);
}

#[test]
fn uniform_image_loses_its_corners() {
    let c = 0x336699;
    let image = vec![c; 25];
    let out = upscale(&image, 5, 5);
    for (i, &p) in out.iter().enumerate() {
        let corner = i == 0 || i == 9 || i == 90 || i == 99;
        assert_eq!(p, if corner { 0x19334C } else { c });
    }
}

#[test]
fn staircase_is_smoothed() {
    let w = 0xFFFFFF;
    let image = [0, 0, w, 0, w, w, w, w, w];
    let out = upscale(&image, 3, 3);
    let h = 0x7F7F7F;
    let expected: [u32; 36] = [
        0, 0, 0, 0, h, h,
        0, 0, 0, h, w, w,
        0, 0, h, w, w, w,
        0, h, w, w, w, w,
        h, w, w, w, w, w,
        h, w, w, w, w, h,
    ];
    assert_eq!(&out[..], &expected[..]);
}

#[test]
fn mixed_image() {
    let image = [
        0x102030, 0x102030, 0xF0E0D0, 0xF0E0D0,
        0x102030, 0xF0E0D0, 0xF0E0D0, 0x102030,
        0x405060, 0x405060, 0x102030, 0xFFFFFF,
    ];
    let out = upscale(&image, 4, 3);
    let expected: [u32; 48] = [
        0x081018, 0x102030, 0x102030, 0x102030, 0x808080, 0xF0E0D0, 0xF0E0D0, 0x787068,
        0x102030, 0x102030, 0x102030, 0x808080, 0xF0E0D0, 0xF0E0D0, 0xF0E0D0, 0x808080,
        0x102030, 0x102030, 0x808080, 0xF0E0D0, 0xF0E0D0, 0xF0E0D0, 0x808080, 0x102030,
        0x102030, 0x102030, 0x989898, 0xF0E0D0, 0xF0E0D0, 0xF0E0D0, 0x808080, 0x102030,
        0x283848, 0x405060, 0x405060, 0x405060, 0x283848, 0x808080, 0xFFFFFF, 0x878F97,
        0x202830, 0x405060, 0x405060, 0x405060, 0x102030, 0x102030, 0x878F97, 0x7F7F7F,
    ];
    assert_eq!(&out[..], &expected[..]);
}

#[test]
fn wide_image() {
    let image = [0x102030, 0x405060, 0x708090, 0x0A0B0C, 0xFFFFFF, 0x000000];
    let out = upscale(&image, 3, 2);
    let expected: [u32; 24] = [
        0x081018, 0x102030, 0x283848, 0x405060, 0x586878, 0x384048,
        0x102030, 0x0D151E, 0x405060, 0x586878, 0x708090, 0x384048,
        0x050506, 0x0A0B0C, 0x9FA7AF, 0xFFFFFF, 0x384048, 0x000000,
        0x050506, 0x0A0B0C, 0x848585, 0x7F7F7F, 0x000000, 0x000000,
    ];
    assert_eq!(&out[..], &expected[..]);
}

#[test]
fn apply_is_deterministic() {
    let image = [
        0x102030, 0x102030, 0xF0E0D0, 0xF0E0D0,
        0x102030, 0xF0E0D0, 0xF0E0D0, 0x102030,
        0x405060, 0x405060, 0x102030, 0xFFFFFF,
    ];
    let first = upscale(&image, 4, 3);
    let second = upscale(&image, 4, 3);
    assert_eq!(first, second);
}

#[test]
fn apply_overwrites_every_cell() {
    let image = [0xFF0000, 0x00FF00, 0x0000FF, 0xFFFFFF];
    let clean = upscale(&image, 2, 2);
    let mut dirty = vec![0xDEADBEEFu32; 16];
    apply(&mut dirty[..], &image, 2, 2);
    assert_eq!(dirty, clean);
}

#[test]
fn apply_on_empty_images() {
    let image: Vec<u32> = Vec::new();
    let mut out: Vec<u32> = Vec::new();
    apply(&mut out[..], &image, 0, 0);
    assert!(out.is_empty());
    apply(&mut out[..], &image, 0, 5);
    assert!(out.is_empty());
    apply(&mut out[..], &image, 5, 0);
    assert!(out.is_empty());
}

#[test]
fn buffer_has_twice_the_width_and_height() {
    let (buf, w, h) = get_buffer_for_size(3, 2);
    assert_eq!(buf.len(), 24);
    assert_eq!((w, h), (6, 4));
    assert!(buf.iter().all(|&p| p == 0));
    let (buf, w, h) = get_buffer_for_size(1, 1);
    assert_eq!(buf, vec![0u32; 4]);
    assert_eq!((w, h), (2, 2));
    let (buf, w, h) = get_buffer_for_size(640, 480);
    assert_eq!(buf.len(), 1280 * 960);
    assert_eq!((w, h), (1280, 960));
}

#[test]
fn buffer_of_a_degenerate_size_is_empty() {
    let (buf, w, h) = get_buffer_for_size(0, 5);
    assert_eq!(buf.len(), 0);
    assert_eq!((w, h), (0, 10));
    let (buf, w, h) = get_buffer_for_size(5, 0);
    assert_eq!(buf.len(), 0);
    assert_eq!((w, h), (10, 0));
    let (buf, w, h) = get_buffer_for_size(0, 0);
    assert_eq!(buf.len(), 0);
    assert_eq!((w, h), (0, 0));
}

#[test]
fn explode_gives_three_bytes_a_pixel() {
    assert_eq!(explode_rgb(&[]), Vec::<u8>::new());
    assert_eq!(explode_rgb(&[0x123456]), vec![0x12, 0x34, 0x56]);
    assert_eq!(
        explode_rgb(&[0xFF0000, 0x00FF00, 0xAB0000FF]),
        vec![0xFF, 0, 0, 0, 0xFF, 0, 0, 0, 0xFF]
    );
}

#[test]
fn implode_reads_rgb_and_rgba() {
    assert_eq!(implode_rgb(&[0x12, 0x34, 0x56, 0x78, 0x9A, 0xBC], 3), vec![0x123456, 0x789ABC]);
    assert_eq!(
        implode_rgb(&[0x12, 0x34, 0x56, 0xFF, 0x78, 0x9A, 0xBC, 0x00], 4),
        vec![0x123456, 0x789ABC]
    );
    assert_eq!(implode_rgb(&[1, 2, 3, 4, 5], 3), vec![0x010203]);
    assert_eq!(implode_rgb(&[1, 2], 3), Vec::<u32>::new());
}

#[test]
fn implode_undoes_explode() {
    let pixels = vec![0x000000, 0xFFFFFF, 0x102030, color_u8_to_u32(9, 8, 7)];
    assert_eq!(implode_rgb(&explode_rgb(&pixels), 3), pixels);
}
