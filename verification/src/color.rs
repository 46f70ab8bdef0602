//! Color helpers — the integer side of color conversion.

use vstd::prelude::*;

verus! {

/// Split a packed `0xRRGGBBAA` color into its red, green, blue and alpha
/// bytes.
pub fn hex_channels(hex: u32) -> (c: (u8, u8, u8, u8))
    ensures
        hex == c.0 as u32 * 0x1000000 + c.1 as u32 * 0x10000 + c.2 as u32 * 0x100 + c.3 as u32,
{
    assert((hex >> 24) & 0xFF < 256 && (hex >> 16) & 0xFF < 256 && (hex >> 8) & 0xFF < 256 && hex
        & 0xFF < 256) by (bit_vector);
    let r = ((hex >> 24) & 0xFF) as u8;
    let g = ((hex >> 16) & 0xFF) as u8;
    let b = ((hex >> 8) & 0xFF) as u8;
    let a = (hex & 0xFF) as u8;
    assert(hex == ((hex >> 24) & 0xFF) * 0x1000000 + ((hex >> 16) & 0xFF) * 0x10000 + ((hex >> 8)
        & 0xFF) * 0x100 + (hex & 0xFF)) by (bit_vector);
    (r, g, b, a)
}

} // verus!
