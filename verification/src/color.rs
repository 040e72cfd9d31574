use vstd::prelude::*;

verus! {

/// The `0xRRGGBB` value of a colour with the given channels.
pub open spec fn pack_rgb(r: u8, g: u8, b: u8) -> u32 {
    (r as int * 0x10000 + g as int * 0x100 + b as int) as u32
}

/// The channels (red, green, blue) of an `0xRRGGBB` value; bits above the
/// 24th are ignored.
pub open spec fn unpack_rgb(p: u32) -> (u8, u8, u8) {
    ((p / 0x10000 % 0x100) as u8, (p / 0x100 % 0x100) as u8, (p % 0x100) as u8)
}

/// Packs three channels into one `0xRRGGBB` pixel, the format shared by
/// textures and the frame buffer.
pub fn pack_pixel(r: u8, g: u8, b: u8) -> (p: u32)
    ensures
        p == pack_rgb(r, g, b),
{
    let p = ((r as u32) << 16) | ((g as u32) << 8) | (b as u32);
    assert(((r as u32) << 16) | ((g as u32) << 8) | (b as u32) == (r as u32) * 0x10000 + (g as u32)
        * 0x100 + (b as u32)) by (bit_vector);
    p
}

/// Splits an `0xRRGGBB` pixel into its red, green and blue channels.
pub fn unpack_pixel(p: u32) -> (c: (u8, u8, u8))
    ensures
        c == unpack_rgb(p),
{
    let r = ((p >> 16) & 0xff) as u8;
    let g = ((p >> 8) & 0xff) as u8;
    let b = (p & 0xff) as u8;
    assert(((p >> 16u32) & 0xffu32) == p / 0x10000u32 % 0x100u32) by (bit_vector);
    assert(((p >> 8u32) & 0xffu32) == p / 0x100u32 % 0x100u32) by (bit_vector);
    assert((p & 0xffu32) == p % 0x100u32) by (bit_vector);
    (r, g, b)
}

/// A packed colour keeps its three channels apart: unpacking gives back the
/// channels it was packed from, and nothing lies above the 24th bit.
pub proof fn law_pack_unpack(r: u8, g: u8, b: u8)
    ensures
        pack_rgb(r, g, b) < 0x1000000,
        unpack_rgb(pack_rgb(r, g, b)) == (r, g, b),
{
    let p = pack_rgb(r, g, b);
    assert(p == (r as u32) * 0x10000 + (g as u32) * 0x100 + (b as u32));
    assert({
        &&& p < 0x1000000
        &&& (p / 0x10000 % 0x100) as u8 == r
        &&& (p / 0x100 % 0x100) as u8 == g
        &&& (p % 0x100) as u8 == b
    }) by (bit_vector)
        requires
            p == (r as u32) * 0x10000 + (g as u32) * 0x100 + (b as u32),
    ;
}

/// A pixel with nothing above its 24th bit is the packing of its channels.
pub proof fn law_unpack_pack(p: u32)
    requires
        p < 0x1000000,
    ensures
        pack_rgb(unpack_rgb(p).0, unpack_rgb(p).1, unpack_rgb(p).2) == p,
{
    assert(p == ((p / 0x10000u32 % 0x100u32) as u8 as u32) * 0x10000 + ((p / 0x100u32 % 0x100u32) as u8
        as u32) * 0x100 + ((p % 0x100u32) as u8 as u32)) by (bit_vector)
        requires
            p < 0x1000000u32,
    ;
}

} // verus!
