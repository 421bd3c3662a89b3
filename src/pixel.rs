use vstd::arithmetic::div_mod::{lemma_add_mod_noop, lemma_mod_mod};
use vstd::prelude::*;

verus! {

/// An 8-bit-per-channel RGBA pixel, as emitted by the decoder.
#[derive(Clone, Copy, Debug, PartialEq, Eq, Structural)]
pub struct Pixel {
    pub r: u8,
    pub g: u8,
    pub b: u8,
    pub a: u8,
}

impl Pixel {
    /// Builds a pixel from its four channels.
    pub fn new(r: u8, g: u8, b: u8, a: u8) -> (p: Pixel)
        ensures
            p == (Pixel { r, g, b, a }),
    {
        Pixel { r, g, b, a }
    }
}

/// The slot of the 64-entry index cache that a pixel belongs to.
///
/// The format computes `r*3 + g*5 + b*7 + a*11` with 8-bit wrapping and then
/// takes the remainder by 64; since 64 divides 256 the wrapping does not
/// change that remainder, so the plain integer sum is used here.
pub open spec fn pixel_hash(p: Pixel) -> int {
    (p.r as int * 3 + p.g as int * 5 + p.b as int * 7 + p.a as int * 11) % 64
}

/// The hash computed as the format writes it, each product and each sum
/// wrapped to 8 bits, has the same remainder by 64 as the plain sum.
pub proof fn lemma_hash_wrapping(p: Pixel)
    ensures
        ((((((p.r as int * 3) % 256 + (p.g as int * 5) % 256) % 256 + (p.b as int * 7) % 256) % 256
            + (p.a as int * 11) % 256) % 256) % 64) == pixel_hash(p),
{
    let (x, y, z, w) = (p.r as int * 3, p.g as int * 5, p.b as int * 7, p.a as int * 11);
    lemma_add_mod_noop(x, y, 256);
    lemma_add_mod_noop(x + y, z, 256);
    lemma_add_mod_noop(x + y + z, w, 256);
    lemma_mod_mod(x + y + z + w, 64, 4);
    assert(64 * 4 == 256);
}

/// Index cache slot of `p`.
pub fn hash(p: &Pixel) -> (h: usize)
    ensures
        h as int == pixel_hash(*p),
        h < 64,
{
    let s: u32 = (p.r as u32) * 3 + (p.g as u32) * 5 + (p.b as u32) * 7 + (p.a as u32) * 11;
    (s % 64) as usize
}

/// The packed 16-bit RGB565 value of a pixel: the top five bits of red, the
/// top six of green and the top five of blue; alpha is dropped.
pub open spec fn rgb565_of(p: Pixel) -> u16 {
    (((p.r & 0xF8u8) as u16) << 8u16) | (((p.g & 0xFCu8) as u16) << 3u16) | ((p.b >> 3u8) as u16)
}

/// Converts a pixel to the display's native 16-bit colour.
pub fn rgb565(p: &Pixel) -> (v: u16)
    ensures
        v == rgb565_of(*p),
{
    (((p.r & 0xF8u8) as u16) << 8u16) | (((p.g & 0xFCu8) as u16) << 3u16) | ((p.b >> 3u8) as u16)
}

/// High byte of the RGB565 value, stored first in the framebuffer.
pub open spec fn rgb565_hi(p: Pixel) -> u8 {
    (rgb565_of(p) >> 8u16) as u8
}

/// Low byte of the RGB565 value, stored second in the framebuffer.
pub open spec fn rgb565_lo(p: Pixel) -> u8 {
    (rgb565_of(p) & 0xFFu16) as u8
}

/// The two framebuffer bytes of a pixel, in big-endian order.
pub fn rgb565_be_bytes(p: &Pixel) -> (bytes: [u8; 2])
    ensures
        bytes@ == seq![rgb565_hi(*p), rgb565_lo(*p)],
{
    let v = rgb565(p);
    let bytes = [(v >> 8u16) as u8, (v & 0xFFu16) as u8];
    assert(bytes@ =~= seq![rgb565_hi(*p), rgb565_lo(*p)]);
    bytes
}

} // verus!
