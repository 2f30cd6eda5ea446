//! The packed colour model: three 8-bit channels in the low 24 bits of a `u32`.

use vstd::prelude::*;

verus! {

/// The largest value that a packed pixel without stray high bits can have.
pub const PIXEL_MAX: u32 = 0xFF_FFFF;

/// The red channel of a packed pixel: bits 16 to 23.
pub open spec fn red(p: u32) -> int {
    (p as int / 0x1_0000) % 0x100
}

/// The green channel of a packed pixel: bits 8 to 15.
pub open spec fn green(p: u32) -> int {
    (p as int / 0x100) % 0x100
}

/// The blue channel of a packed pixel: bits 0 to 7.
pub open spec fn blue(p: u32) -> int {
    p as int % 0x100
}

/// The packed pixel with the given channels, each of which is meant to lie in
/// `0..=255`.
pub open spec fn pack(r: int, g: int, b: int) -> int {
    r * 0x1_0000 + g * 0x100 + b
}

/// Two pixels show the same colour: they agree on all three channels, whatever
/// their unused high bits hold.
pub open spec fn same_color(a: u32, b: u32) -> bool {
    red(a) == red(b) && green(a) == green(b) && blue(a) == blue(b)
}

/// The pixel is black: all three channels are zero.
pub open spec fn is_black(p: u32) -> bool {
    red(p) == 0 && green(p) == 0 && blue(p) == 0
}

/// Extracts the red channel.
pub fn red_u8(p: u32) -> (r: u8)
    ensures
        r as int == red(p),
{
    assert(((p & 0xFF0000) >> 16) == (p / 0x1_0000) % 0x100) by (bit_vector);
    ((p & 0xFF0000) >> 16) as u8
}

/// Extracts the green channel.
pub fn green_u8(p: u32) -> (g: u8)
    ensures
        g as int == green(p),
{
    assert(((p & 0x00FF00) >> 8) == (p / 0x100) % 0x100) by (bit_vector);
    ((p & 0x00FF00) >> 8) as u8
}

/// Extracts the blue channel.
pub fn blue_u8(p: u32) -> (b: u8)
    ensures
        b as int == blue(p),
{
    assert((p & 0x0000FF) == p % 0x100) by (bit_vector);
    (p & 0x0000FF) as u8
}

/// Packs three channels into one pixel. The unused high bits of the result are
/// zero.
pub fn color_u8_to_u32(r: u8, g: u8, b: u8) -> (p: u32)
    ensures
        p as int == pack(r as int, g as int, b as int),
        p <= PIXEL_MAX,
        red(p) == r,
        green(p) == g,
        blue(p) == b,
{
    let rw: u32 = r as u32;
    let gw: u32 = g as u32;
    let bw: u32 = b as u32;
    assert(rw <= 0xFF && gw <= 0xFF && bw <= 0xFF ==> ((rw & 0xFF) << 16 | (gw & 0xFF) << 8 | (bw
        & 0xFF)) == rw * 0x1_0000 + gw * 0x100 + bw) by (bit_vector);
    proof {
        lemma_channels_of_pack(r as int, g as int, b as int);
    }
    (rw & 0xFF) << 16 | (gw & 0xFF) << 8 | (bw & 0xFF)
}

/// Packs three channels given as wider integers, keeping only the low eight
/// bits of each: an out-of-range channel wraps around, it does not saturate.
pub fn color_u32_to_u32(r: u32, g: u32, b: u32) -> (p: u32)
    ensures
        p as int == pack(r as int % 0x100, g as int % 0x100, b as int % 0x100),
        p <= PIXEL_MAX,
        red(p) == r as int % 0x100,
        green(p) == g as int % 0x100,
        blue(p) == b as int % 0x100,
{
    assert((r & 0xFF) == r % 0x100) by (bit_vector);
    assert((g & 0xFF) == g % 0x100) by (bit_vector);
    assert((b & 0xFF) == b % 0x100) by (bit_vector);
    color_u8_to_u32((r & 0xFF) as u8, (g & 0xFF) as u8, (b & 0xFF) as u8)
}

/// Unpacking undoes packing: each channel of `pack(r, g, b)` is the channel
/// that went in, and the packed value has no bits above the 24th.
pub proof fn lemma_channels_of_pack(r: int, g: int, b: int)
    requires
        0 <= r <= 0xFF,
        0 <= g <= 0xFF,
        0 <= b <= 0xFF,
    ensures
        0 <= pack(r, g, b) <= PIXEL_MAX,
        red(pack(r, g, b) as u32) == r,
        green(pack(r, g, b) as u32) == g,
        blue(pack(r, g, b) as u32) == b,
{
}

/// Packing undoes unpacking: a pixel without stray high bits is the packing of
/// its own channels.
pub proof fn lemma_pack_of_channels(p: u32)
    requires
        p <= PIXEL_MAX,
    ensures
        pack(red(p), green(p), blue(p)) == p,
{
}

/// Every channel of every pixel lies in `0..=255`.
pub proof fn lemma_channel_range(p: u32)
    ensures
        0 <= red(p) <= 0xFF,
        0 <= green(p) <= 0xFF,
        0 <= blue(p) <= 0xFF,
{
}

} // verus!
