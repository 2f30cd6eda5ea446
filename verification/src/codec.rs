//! Conversions between packed pixels and interleaved channel bytes, as image
//! files hold them.

use vstd::prelude::*;
use crate::color::{blue, blue_u8, color_u8_to_u32, green, green_u8, pack, red, red_u8};

verus! {

/// The bytes of a pixel sequence: three per pixel, in the order red, green,
/// blue.
pub open spec fn exploded(pixels: Seq<u32>) -> Seq<u8> {
    Seq::new(
        3 * pixels.len(),
        |i: int|
            if i % 3 == 0 {
                red(pixels[i / 3]) as u8
            } else if i % 3 == 1 {
                green(pixels[i / 3]) as u8
            } else {
                blue(pixels[i / 3]) as u8
            },
    )
}

/// The pixels of a byte sequence that holds `stride` bytes per pixel, of which
/// the first three are red, green and blue. Bytes behind the last whole pixel
/// are left out.
pub open spec fn imploded(bytes: Seq<u8>, stride: int) -> Seq<u32> {
    Seq::new(
        (bytes.len() as int / stride) as nat,
        |i: int|
            pack(
                bytes[i * stride] as int,
                bytes[i * stride + 1] as int,
                bytes[i * stride + 2] as int,
            ) as u32,
    )
}

/// Spreads packed pixels out into bytes, three per pixel.
pub fn explode_rgb(buf: &[u32]) -> (bytes: Vec<u8>)
    ensures
        bytes@ == exploded(buf@),
{
    let mut bytes: Vec<u8> = Vec::new();
    let mut i: usize = 0;
    while i < buf.len()
        invariant
            i <= buf@.len(),
            bytes@.len() == 3 * i,
            forall|k: int| 0 <= k < 3 * i ==> #[trigger] bytes@[k] == exploded(buf@)[k],
        decreases buf@.len() - i,
    {
        let p: u32 = buf[i];
        bytes.push(red_u8(p));
        bytes.push(green_u8(p));
        bytes.push(blue_u8(p));
        i += 1;
    }
    assert(bytes@ =~= exploded(buf@));
    bytes
}

/// Gathers interleaved channel bytes into packed pixels. Each pixel takes
/// `stride` bytes, of which the first three are read: three for RGB data, four
/// for RGBA data, whose alpha is dropped.
pub fn implode_rgb(bytes: &[u8], stride: usize) -> (pixels: Vec<u32>)
    requires
        stride >= 3,
    ensures
        pixels@ == imploded(bytes@, stride as int),
{
    let len: usize = bytes.len();
    let count: usize = len / stride;
    let mut pixels: Vec<u32> = Vec::new();
    let mut i: usize = 0;
    while i < count
        invariant
            i <= count,
            stride >= 3,
            len == bytes@.len(),
            count == (bytes@.len() as int) / (stride as int),
            pixels@.len() == i,
            forall|k: int| 0 <= k < i ==> #[trigger] pixels@[k] == imploded(bytes@, stride as int)[k],
        decreases count - i,
    {
        assert(0 <= i * stride && i * stride + stride <= len) by (nonlinear_arith)
            requires
                0 <= i < count,
                count == (len as int) / (stride as int),
                stride >= 3,
        ;
        let at: usize = i * stride;
        pixels.push(color_u8_to_u32(bytes[at], bytes[at + 1], bytes[at + 2]));
        i += 1;
    }
    assert(pixels@ =~= imploded(bytes@, stride as int));
    pixels
}

} // verus!
