//! Packing of 8-bit colour channels into the one-integer pixel format the
//! frame buffer holds.

use vstd::prelude::*;

verus! {

/// Packs three 8-bit channels into one pixel as `(r << 16) | (g << 8) | b`,
/// which equals `r * 65536 + g * 256 + b`.
pub fn from_rgb(r: u8, g: u8, b: u8) -> (c: u32)
    ensures
        c == ((r as u32) << 16u32) | ((g as u32) << 8u32) | (b as u32),
        c == r as int * 65536 + g as int * 256 + b as int,
{
    let c = ((r as u32) << 16u32) | ((g as u32) << 8u32) | (b as u32);
    proof {
        assert(c == r as u32 * 65536 + g as u32 * 256 + b as u32) by (bit_vector)
            requires
                c == ((r as u32) << 16u32) | ((g as u32) << 8u32) | (b as u32),
        ;
    }
    c
}

} // verus!
